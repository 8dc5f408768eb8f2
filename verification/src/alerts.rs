//! Alert rules: a figure of an analysis, an operator and a threshold.

use vstd::prelude::*;

use crate::num::Num;
use crate::numeric;
use crate::numeric::float_text;
use crate::scan;
use crate::scan::split_at_first;
use crate::text;
use crate::text::{cat3, cat5, same, to_lower_case, trimmed};

verus! {

/// The bit pattern of one billionth, within which two figures count as equal.
pub const TOLERANCE: u64 = 0x3e11_2e0b_e826_d695;

/// How a figure is compared with a threshold.
#[derive(Clone, Copy, Debug, PartialEq, Eq, Structural)]
pub enum AlertOp {
    AtLeast,
    AtMost,
    Differs,
    Above,
    Below,
    Equals,
}

/// A rule as it is read. The threshold is the text of a number.
#[derive(Debug)]
pub struct ParsedAlertRule {
    pub metric: String,
    pub op: AlertOp,
    pub threshold: String,
}

/// A rule in views.
pub struct RuleView {
    pub metric: Seq<char>,
    pub op: AlertOp,
    pub threshold: Seq<char>,
}

impl View for ParsedAlertRule {
    type V = RuleView;

    open spec fn view(&self) -> RuleView {
        RuleView { metric: self.metric@, op: self.op, threshold: self.threshold@ }
    }
}

/// The figures that rules can speak of.
#[derive(Clone, Copy, Debug)]
pub struct AlertEvalContext {
    pub top5_record_share_pct: Num,
    pub blank_share_pct: Num,
    pub segments: Num,
    pub records: Num,
}

pub open spec fn op_sign(op: AlertOp) -> Seq<char> {
    match op {
        AlertOp::AtLeast => ">="@,
        AlertOp::AtMost => "<="@,
        AlertOp::Differs => "!="@,
        AlertOp::Above => ">"@,
        AlertOp::Below => "<"@,
        AlertOp::Equals => "="@,
    }
}

impl AlertOp {
    /// The operator as it is written.
    pub fn sign(self) -> (r: &'static str)
        ensures
            r@ == op_sign(self),
    {
        match self {
            AlertOp::AtLeast => ">=",
            AlertOp::AtMost => "<=",
            AlertOp::Differs => "!=",
            AlertOp::Above => ">",
            AlertOp::Below => "<",
            AlertOp::Equals => "=",
        }
    }
}

pub open spec fn known_metric(metric: Seq<char>) -> bool {
    metric == "top5_record_share_pct"@ || metric == "top5_share"@ || metric
        == "top5_record_share"@ || metric == "blank_share_pct"@ || metric == "blank_share"@
        || metric == "segments"@ || metric == "records"@
}

/// Whether rules can speak of a figure.
pub fn is_supported_alert_metric(metric: &str) -> (r: bool)
    ensures
        r == known_metric(metric@),
{
    same(metric, "top5_record_share_pct") || same(metric, "top5_share") || same(
        metric,
        "top5_record_share",
    ) || same(metric, "blank_share_pct") || same(metric, "blank_share") || same(metric, "segments")
        || same(metric, "records")
}

/// The operator of a rule and what stands on its sides: operators of two
/// characters are looked for first.
pub open spec fn rule_parts(s: Seq<char>) -> Option<(AlertOp, Seq<char>, Seq<char>)> {
    match scan::split_once(s, ">="@) {
        Some(p) => Some((AlertOp::AtLeast, p.0, p.1)),
        None => match scan::split_once(s, "<="@) {
            Some(p) => Some((AlertOp::AtMost, p.0, p.1)),
            None => match scan::split_once(s, "!="@) {
                Some(p) => Some((AlertOp::Differs, p.0, p.1)),
                None => match scan::split_once(s, ">"@) {
                    Some(p) => Some((AlertOp::Above, p.0, p.1)),
                    None => match scan::split_once(s, "<"@) {
                        Some(p) => Some((AlertOp::Below, p.0, p.1)),
                        None => match scan::split_once(s, "="@) {
                            Some(p) => Some((AlertOp::Equals, p.0, p.1)),
                            None => None,
                        },
                    },
                },
            },
        },
    }
}

fn split_rule(s: &str) -> (r: Option<(AlertOp, String, String)>)
    ensures
        match r {
            Some(p) => rule_parts(s@) == Some((p.0, p.1@, p.2@)),
            None => rule_parts(s@) is None,
        },
{
    match split_at_first(s, ">=") {
        Some(p) => {
            return Some((AlertOp::AtLeast, p.0, p.1));
        },
        None => {},
    }
    match split_at_first(s, "<=") {
        Some(p) => {
            return Some((AlertOp::AtMost, p.0, p.1));
        },
        None => {},
    }
    match split_at_first(s, "!=") {
        Some(p) => {
            return Some((AlertOp::Differs, p.0, p.1));
        },
        None => {},
    }
    match split_at_first(s, ">") {
        Some(p) => {
            return Some((AlertOp::Above, p.0, p.1));
        },
        None => {},
    }
    match split_at_first(s, "<") {
        Some(p) => {
            return Some((AlertOp::Below, p.0, p.1));
        },
        None => {},
    }
    match split_at_first(s, "=") {
        Some(p) => Some((AlertOp::Equals, p.0, p.1)),
        None => None,
    }
}

/// A rule whose parts are known and whose figure's name is in lower case.
pub open spec fn checked_rule(
    s: Seq<char>,
    op: AlertOp,
    metric: Seq<char>,
    threshold: Seq<char>,
) -> Result<RuleView, Seq<char>> {
    if metric.len() == 0 {
        Err("invalid --alert-rule '"@ + s + "': missing metric"@)
    } else if !known_metric(metric) {
        Err(
            "invalid --alert-rule '"@ + s + "': unsupported metric '"@ + metric
                + "'. Supported: top5_record_share_pct, blank_share_pct, segments, records"@,
        )
    } else if !numeric::is_float_text(threshold) {
        Err("invalid --alert-rule '"@ + s + "': bad threshold"@)
    } else {
        Ok(RuleView { metric, op, threshold })
    }
}

/// The rule that a text describes, or why it describes none.
pub open spec fn read_rule(raw: Seq<char>) -> Result<RuleView, Seq<char>> {
    let s = text::trim(raw);
    if s.len() == 0 {
        Err("empty --alert-rule"@)
    } else {
        match rule_parts(s) {
            None => Err(
                "invalid --alert-rule '"@ + s
                    + "'; expected metric<op>number (e.g., top5_record_share_pct>60)"@,
            ),
            Some(p) => checked_rule(
                s,
                p.0,
                text::lower_case(text::trim(p.1)),
                text::trim(p.2),
            ),
        }
    }
}

/// Checks a rule whose parts are known and whose figure's name is in lower case.
pub fn check_rule(s: &str, op: AlertOp, metric: String, threshold: String) -> (r: Result<
    ParsedAlertRule,
    String,
>)
    ensures
        match r {
            Ok(p) => checked_rule(s@, op, metric@, threshold@) == Ok::<RuleView, Seq<char>>(p@),
            Err(e) => checked_rule(s@, op, metric@, threshold@) == Err::<RuleView, Seq<char>>(e@),
        },
{
    if metric.as_str().is_empty() {
        return Err(cat3("invalid --alert-rule '", s, "': missing metric"));
    }
    if !is_supported_alert_metric(metric.as_str()) {
        return Err(
            cat5(
                "invalid --alert-rule '",
                s,
                "': unsupported metric '",
                metric.as_str(),
                "'. Supported: top5_record_share_pct, blank_share_pct, segments, records",
            ),
        );
    }
    if !float_text(threshold.as_str()) {
        return Err(cat3("invalid --alert-rule '", s, "': bad threshold"));
    }
    Ok(ParsedAlertRule { metric, op, threshold })
}

/// Reads an alert rule.
pub fn parse_alert_rule(raw: &str) -> (r: Result<ParsedAlertRule, String>)
    ensures
        match r {
            Ok(p) => read_rule(raw@) == Ok::<RuleView, Seq<char>>(p@),
            Err(e) => read_rule(raw@) == Err::<RuleView, Seq<char>>(e@),
        },
{
    let s = trimmed(raw);
    if s.as_str().is_empty() {
        return Err("empty --alert-rule".to_owned());
    }
    match split_rule(s.as_str()) {
        None => Err(
            cat3(
                "invalid --alert-rule '",
                s.as_str(),
                "'; expected metric<op>number (e.g., top5_record_share_pct>60)",
            ),
        ),
        Some(p) => {
            let metric = to_lower_case(trimmed(p.1.as_str()).as_str());
            let threshold = trimmed(p.2.as_str());
            check_rule(s.as_str(), p.0, metric, threshold)
        },
    }
}

/// The figure that a rule speaks of.
pub open spec fn figure(metric: Seq<char>, ctx: AlertEvalContext) -> Option<Num> {
    if metric == "top5_record_share_pct"@ || metric == "top5_share"@ || metric
        == "top5_record_share"@ {
        Some(ctx.top5_record_share_pct)
    } else if metric == "blank_share_pct"@ || metric == "blank_share"@ {
        Some(ctx.blank_share_pct)
    } else if metric == "segments"@ {
        Some(ctx.segments)
    } else if metric == "records"@ {
        Some(ctx.records)
    } else {
        None
    }
}

/// The figure that a rule speaks of; none for a name that rules cannot speak of.
pub fn alert_metric_value(metric: &str, ctx: &AlertEvalContext) -> (r: Option<Num>)
    ensures
        r == figure(metric@, *ctx),
        r is Some == known_metric(metric@),
{
    if same(metric, "top5_record_share_pct") || same(metric, "top5_share") || same(
        metric,
        "top5_record_share",
    ) {
        Some(ctx.top5_record_share_pct)
    } else if same(metric, "blank_share_pct") || same(metric, "blank_share") {
        Some(ctx.blank_share_pct)
    } else if same(metric, "segments") {
        Some(ctx.segments)
    } else if same(metric, "records") {
        Some(ctx.records)
    } else {
        None
    }
}

/// A figure stands in the rule's relation to the threshold. `distance` is the
/// absolute difference of the two.
pub open spec fn triggers(op: AlertOp, actual: Num, threshold: Num, distance: Num) -> bool {
    !actual.is_nan() && match op {
        AlertOp::Above => threshold.lt(actual),
        AlertOp::AtLeast => threshold.le(actual),
        AlertOp::Below => actual.lt(threshold),
        AlertOp::AtMost => actual.le(threshold),
        AlertOp::Equals => distance.lt(Num { bits: TOLERANCE }),
        AlertOp::Differs => (Num { bits: TOLERANCE }).le(distance),
    }
}

/// Whether a figure triggers a rule. `distance` is the absolute difference of
/// the figure and the threshold.
pub fn eval_alert_rule(op: AlertOp, actual: Num, threshold: Num, distance: Num) -> (r: bool)
    ensures
        r == triggers(op, actual, threshold, distance),
{
    if actual.nan() {
        return false;
    }
    match op {
        AlertOp::Above => threshold.less(actual),
        AlertOp::AtLeast => threshold.at_most(actual),
        AlertOp::Below => actual.less(threshold),
        AlertOp::AtMost => actual.at_most(threshold),
        AlertOp::Equals => distance.less(Num { bits: TOLERANCE }),
        AlertOp::Differs => (Num { bits: TOLERANCE }).at_most(distance),
    }
}

/// A rule and its opposite are never both triggered by numbers, and for a
/// threshold and a distance that are numbers one of them is.
pub proof fn law_opposite_rules(actual: Num, threshold: Num, distance: Num)
    requires
        !actual.is_nan(),
        !threshold.is_nan(),
        !distance.is_nan(),
    ensures
        triggers(AlertOp::Above, actual, threshold, distance) != triggers(
            AlertOp::AtMost,
            actual,
            threshold,
            distance,
        ),
        triggers(AlertOp::Below, actual, threshold, distance) != triggers(
            AlertOp::AtLeast,
            actual,
            threshold,
            distance,
        ),
        triggers(AlertOp::Equals, actual, threshold, distance) != triggers(
            AlertOp::Differs,
            actual,
            threshold,
            distance,
        ),
{
}

/// A rule compares the figure with the threshold as its sign says. For equality
/// the distance of the two decides.
pub proof fn law_rules_compare_as_their_sign_says(actual: Num, threshold: Num, distance: Num)
    requires
        !actual.is_nan(),
        !threshold.is_nan(),
        !distance.is_nan(),
    ensures
        triggers(AlertOp::Above, actual, threshold, distance) <==> actual.rank()
            > threshold.rank(),
        triggers(AlertOp::AtLeast, actual, threshold, distance) <==> actual.rank()
            >= threshold.rank(),
        triggers(AlertOp::Below, actual, threshold, distance) <==> actual.rank()
            < threshold.rank(),
        triggers(AlertOp::AtMost, actual, threshold, distance) <==> actual.rank()
            <= threshold.rank(),
        distance.rank() == 0 ==> triggers(AlertOp::Equals, actual, threshold, distance),
        forall|further: Num|
            !further.is_nan() && distance.rank() <= further.rank() && #[trigger] triggers(
                AlertOp::Equals,
                actual,
                threshold,
                further,
            ) ==> triggers(AlertOp::Equals, actual, threshold, distance),
{
}

/// The figure of a rule is the one that its metric names.
pub proof fn law_figures_are_those_of_their_metric(a: AlertEvalContext, b: AlertEvalContext)
    ensures
        figure("segments"@, a) == Some(a.segments),
        figure("records"@, a) == Some(a.records),
        figure("blank_share"@, a) == Some(a.blank_share_pct),
        figure("blank_share_pct"@, a) == Some(a.blank_share_pct),
        figure("top5_share"@, a) == Some(a.top5_record_share_pct),
        figure("top5_record_share"@, a) == Some(a.top5_record_share_pct),
        figure("top5_record_share_pct"@, a) == Some(a.top5_record_share_pct),
        forall|metric: Seq<char>|
            #![trigger known_metric(metric)]
            known_metric(metric) <==> figure(metric, b) is Some,
{
    reveal_strlit("segments");
    reveal_strlit("records");
    reveal_strlit("blank_share");
    reveal_strlit("blank_share_pct");
    reveal_strlit("top5_share");
    reveal_strlit("top5_record_share");
    reveal_strlit("top5_record_share_pct");
    assert("segments"@.len() == 8 && "records"@.len() == 7 && "blank_share"@.len() == 11);
    assert("blank_share_pct"@.len() == 15 && "top5_share"@.len() == 10);
    assert("top5_record_share"@.len() == 17 && "top5_record_share_pct"@.len() == 21);
}

/// A character of a rule's sign.
pub open spec fn is_sign_char(c: char) -> bool {
    c == '<' || c == '>' || c == '=' || c == '!'
}

pub open spec fn has_no_sign(s: Seq<char>) -> bool {
    forall|i: int| 0 <= i < s.len() ==> !is_sign_char(#[trigger] s[i])
}

proof fn lemma_sign_stands_alone(m: Seq<char>, sign: Seq<char>, t: Seq<char>, i: int)
    requires
        has_no_sign(m),
        has_no_sign(t),
    ensures
        ({
            let s = m + sign + t;
            0 <= i < s.len() && is_sign_char(s[i]) ==> m.len() <= i < m.len() + sign.len()
        }),
{
    let s = m + sign + t;
    if 0 <= i < s.len() {
        if i < m.len() {
            assert(s[i] == m[i]);
        } else if i >= m.len() + sign.len() {
            assert(s[i] == t[i - m.len() - sign.len()]);
        }
    }
}

proof fn lemma_split_at_sign(m: Seq<char>, sign: Seq<char>, t: Seq<char>)
    requires
        has_no_sign(m),
        has_no_sign(t),
        sign.len() > 0,
        is_sign_char(sign[0]),
    ensures
        scan::split_once(m + sign + t, sign) == Some((m, t)),
{
    let s = m + sign + t;
    scan::lemma_find_from(s, sign, 0);
    assert(s.subrange(m.len() as int, (m.len() + sign.len()) as int) =~= sign);
    assert(scan::occurs_at(s, sign, m.len() as int));
    let k = scan::find(s, sign)->0;
    assert(scan::occurs_at(s, sign, k));
    assert(s.subrange(k, k + sign.len())[0] == s[k]);
    lemma_sign_stands_alone(m, sign, t, k);
    assert(k == m.len());
    assert(s.take(k) =~= m);
    assert(s.skip(k + sign.len()) =~= t);
}

proof fn lemma_other_sign_absent(m: Seq<char>, sign: Seq<char>, t: Seq<char>, other: Seq<char>)
    requires
        has_no_sign(m),
        has_no_sign(t),
        other.len() > 0,
        forall|i: int| 0 <= i < other.len() ==> is_sign_char(#[trigger] other[i]),
        forall|i: int|
            0 <= i && i + other.len() <= sign.len() ==> #[trigger] sign.subrange(
                i,
                i + other.len(),
            ) != other,
    ensures
        scan::split_once(m + sign + t, other) is None,
{
    let s = m + sign + t;
    scan::lemma_find_from(s, other, 0);
    if scan::find(s, other) is Some {
        let k = scan::find(s, other)->0;
        assert(scan::occurs_at(s, other, k));
        let part = s.subrange(k, k + other.len());
        assert(part[0] == s[k] && part[other.len() - 1] == s[k + other.len() - 1]);
        assert(is_sign_char(other[0]) && is_sign_char(other[other.len() - 1]));
        lemma_sign_stands_alone(m, sign, t, k);
        lemma_sign_stands_alone(m, sign, t, k + other.len() - 1);
        assert(sign.subrange(k - m.len(), k - m.len() + other.len()) =~= part);
    }
}

/// A rule that is written as metric, sign and threshold is read back as these.
pub proof fn law_written_rules_are_read_back(m: Seq<char>, op: AlertOp, t: Seq<char>)
    requires
        has_no_sign(m),
        has_no_sign(t),
    ensures
        rule_parts(m + op_sign(op) + t) == Some((op, m, t)),
{
    reveal_strlit(">=");
    reveal_strlit("<=");
    reveal_strlit("!=");
    reveal_strlit(">");
    reveal_strlit("<");
    reveal_strlit("=");
    let sign = op_sign(op);
    assert(sign.len() > 0 && is_sign_char(sign[0]));
    lemma_split_at_sign(m, sign, t);
    assert(">="@[0] == '>' && ">="@[1] == '=' && "<="@[0] == '<' && "<="@[1] == '=');
    assert("!="@[0] == '!' && "!="@[1] == '=' && ">"@[0] == '>' && "<"@[0] == '<' && "="@[0]
        == '=');
    assert forall|i: int, n: int| 0 <= i && 0 < n && i + n <= sign.len() implies #[trigger] sign.subrange(
    i, i + n).len() == n && sign.subrange(i, i + n)[0] == sign[i] && sign.subrange(i, i + n)[n - 1]
        == sign[i + n - 1] by {}
    if op != AlertOp::AtLeast {
        lemma_other_sign_absent(m, sign, t, ">="@);
    }
    if op != AlertOp::AtLeast && op != AlertOp::AtMost {
        lemma_other_sign_absent(m, sign, t, "<="@);
        if op != AlertOp::Differs {
            lemma_other_sign_absent(m, sign, t, "!="@);
            if op != AlertOp::Above {
                lemma_other_sign_absent(m, sign, t, ">"@);
                if op != AlertOp::Below {
                    lemma_other_sign_absent(m, sign, t, "<"@);
                }
            }
        }
    }
}

} // verus!
