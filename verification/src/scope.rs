//! Scopes: the dimension values that an investigation step is narrowed to.
//!
//! A scope is a list of bindings of a dimension to a value. Dimensions are
//! compared without regard to the case of ASCII letters, values exactly.

use vstd::prelude::*;

use crate::list;
use crate::scan;
use crate::scan::join_text;
use crate::text;
use crate::text::{cat3, eq_ignore_case, same};

verus! {

/// The views of a list of bindings.
pub open spec fn bindings(s: Seq<(String, String)>) -> Seq<(Seq<char>, Seq<char>)> {
    Seq::new(s.len(), |i: int| (s[i].0@, s[i].1@))
}

/// Bindings of the given dimension.
pub open spec fn binds(dimension: Seq<char>) -> spec_fn((Seq<char>, Seq<char>)) -> bool {
    |b: (Seq<char>, Seq<char>)| text::same_ignoring_case(b.0, dimension)
}

/// The scope binds the dimension.
pub open spec fn has_dimension(scope: Seq<(Seq<char>, Seq<char>)>, dimension: Seq<char>) -> bool {
    list::first_from(scope, binds(dimension), 0) is Some
}

/// The value that the first binding of the dimension gives.
pub open spec fn value_of(scope: Seq<(Seq<char>, Seq<char>)>, dimension: Seq<char>) -> Option<
    Seq<char>,
> {
    match list::first(scope, binds(dimension)) {
        Some(b) => Some(b.1),
        None => None,
    }
}

fn binding_index(scope: &[(String, String)], dimension: &str) -> (r: Option<usize>)
    ensures
        match r {
            Some(i) => i < scope.len() && list::first_from(
                bindings(scope@),
                binds(dimension@),
                0,
            ) == Some(i as int),
            None => list::first_from(bindings(scope@), binds(dimension@), 0) is None,
        },
{
    let mut i: usize = 0;
    while i < scope.len()
        invariant
            i <= scope.len(),
            list::first_from(bindings(scope@), binds(dimension@), i as int) == list::first_from(
                bindings(scope@),
                binds(dimension@),
                0,
            ),
        decreases scope.len() - i,
    {
        if eq_ignore_case(scope[i].0.as_str(), dimension) {
            return Some(i);
        }
        i += 1;
    }
    None
}

/// Whether the scope binds a dimension.
pub fn scope_has_dimension(scope: &[(String, String)], dimension: &str) -> (r: bool)
    ensures
        r == has_dimension(bindings(scope@), dimension@),
{
    match binding_index(scope, dimension) {
        Some(_) => true,
        None => false,
    }
}

/// The value to which the scope binds a dimension.
pub fn scope_value<'a>(scope: &'a [(String, String)], dimension: &str) -> (r: Option<&'a str>)
    ensures
        match r {
            Some(v) => value_of(bindings(scope@), dimension@) == Some(v@),
            None => value_of(bindings(scope@), dimension@) is None,
        },
{
    match binding_index(scope, dimension) {
        Some(i) => Some(scope[i].1.as_str()),
        None => None,
    }
}

/// A prior binding that the next scope contradicts.
pub open spec fn contradicted(next: Seq<(Seq<char>, Seq<char>)>) -> spec_fn(
    (Seq<char>, Seq<char>),
) -> bool {
    |b: (Seq<char>, Seq<char>)|
        match value_of(next, b.0) {
            Some(v) => v != b.1,
            None => false,
        }
}

/// The first prior binding that the next scope contradicts, with the value there.
pub open spec fn conflict(
    prior: Seq<(Seq<char>, Seq<char>)>,
    next: Seq<(Seq<char>, Seq<char>)>,
) -> Option<(Seq<char>, Seq<char>, Seq<char>)> {
    match list::first(prior, contradicted(next)) {
        Some(b) => Some((b.0, b.1, value_of(next, b.0)->0)),
        None => None,
    }
}

/// The first binding of the prior scope to which the next scope gives another
/// value: the dimension, the prior value and the next value.
pub fn conflicting_scope_binding(
    prior_scope: &[(String, String)],
    next_scope: &[(String, String)],
) -> (r: Option<(String, String, String)>)
    ensures
        match r {
            Some(c) => conflict(bindings(prior_scope@), bindings(next_scope@)) == Some(
                (c.0@, c.1@, c.2@),
            ),
            None => conflict(bindings(prior_scope@), bindings(next_scope@)) is None,
        },
{
    let ghost p = contradicted(bindings(next_scope@));
    let mut i: usize = 0;
    while i < prior_scope.len()
        invariant
            i <= prior_scope.len(),
            p == contradicted(bindings(next_scope@)),
            list::first_from(bindings(prior_scope@), p, i as int) == list::first_from(
                bindings(prior_scope@),
                p,
                0,
            ),
        decreases prior_scope.len() - i,
    {
        assert(bindings(prior_scope@)[i as int] == (
            prior_scope@[i as int].0@,
            prior_scope@[i as int].1@,
        ));
        match scope_value(next_scope, prior_scope[i].0.as_str()) {
            Some(next) => {
                if !same(next, prior_scope[i].1.as_str()) {
                    return Some(
                        (prior_scope[i].0.clone(), prior_scope[i].1.clone(), next.to_owned()),
                    );
                }
            },
            None => {},
        }
        i += 1;
    }
    None
}

/// Every required binding holds in the candidate.
pub open spec fn superset(
    candidate: Seq<(Seq<char>, Seq<char>)>,
    required: Seq<(Seq<char>, Seq<char>)>,
) -> bool {
    forall|i: int|
        0 <= i < required.len() ==> value_of(candidate, (#[trigger] required[i]).0) == Some(
            required[i].1,
        )
}

/// Whether every required binding holds in the candidate.
pub fn scope_is_superset_of(
    candidate_scope: &[(String, String)],
    required_scope: &[(String, String)],
) -> (r: bool)
    ensures
        r == superset(bindings(candidate_scope@), bindings(required_scope@)),
{
    let mut i: usize = 0;
    while i < required_scope.len()
        invariant
            i <= required_scope.len(),
            forall|j: int|
                0 <= j < i ==> value_of(
                    bindings(candidate_scope@),
                    (#[trigger] bindings(required_scope@)[j]).0,
                ) == Some(bindings(required_scope@)[j].1),
        decreases required_scope.len() - i,
    {
        let ghost b = bindings(required_scope@)[i as int];
        match scope_value(candidate_scope, required_scope[i].0.as_str()) {
            Some(v) => {
                if !same(v, required_scope[i].1.as_str()) {
                    assert(value_of(bindings(candidate_scope@), b.0) != Some(b.1));
                    return false;
                }
            },
            None => {
                assert(value_of(bindings(candidate_scope@), b.0) is None);
                return false;
            },
        }
        i += 1;
    }
    true
}

/// A copy of a scope.
pub fn copy_scope(scope: &[(String, String)]) -> (r: Vec<(String, String)>)
    ensures
        r@ == scope@,
{
    let mut out: Vec<(String, String)> = Vec::new();
    let mut i: usize = 0;
    while i < scope.len()
        invariant
            i <= scope.len(),
            out@ == scope@.take(i as int),
        decreases scope.len() - i,
    {
        out.push((scope[i].0.clone(), scope[i].1.clone()));
        i += 1;
        assert(out@ =~= scope@.take(i as int));
    }
    assert(scope@.take(scope@.len() as int) =~= scope@);
    out
}

/// The required bindings, then those of the candidate whose dimension nothing
/// before them binds.
pub open spec fn merged(
    required: Seq<(Seq<char>, Seq<char>)>,
    candidate: Seq<(Seq<char>, Seq<char>)>,
) -> Seq<(Seq<char>, Seq<char>)>
    decreases candidate.len(),
{
    if candidate.len() == 0 {
        required
    } else {
        let front = merged(required, candidate.drop_last());
        if has_dimension(front, candidate.last().0) {
            front
        } else {
            front.push(candidate.last())
        }
    }
}

/// Adds to the required scope the candidate's bindings of further dimensions.
pub fn merge_scope(
    required_scope: &[(String, String)],
    candidate_scope: &[(String, String)],
) -> (r: Vec<(String, String)>)
    ensures
        bindings(r@) == merged(bindings(required_scope@), bindings(candidate_scope@)),
{
    let ghost req = bindings(required_scope@);
    let ghost cand = bindings(candidate_scope@);
    let mut out = copy_scope(required_scope);
    let mut i: usize = 0;
    assert(cand.take(0) =~= Seq::empty());
    while i < candidate_scope.len()
        invariant
            i <= candidate_scope.len(),
            req == bindings(required_scope@),
            cand == bindings(candidate_scope@),
            bindings(out@) == merged(req, cand.take(i as int)),
        decreases candidate_scope.len() - i,
    {
        assert(cand.take(i + 1).drop_last() =~= cand.take(i as int));
        assert(cand[i as int] == (candidate_scope@[i as int].0@, candidate_scope@[i as int].1@));
        if !scope_has_dimension(out.as_slice(), candidate_scope[i].0.as_str()) {
            let ghost before = bindings(out@);
            out.push((candidate_scope[i].0.clone(), candidate_scope[i].1.clone()));
            assert(bindings(out@) =~= before.push(cand[i as int]));
        }
        i += 1;
    }
    assert(cand.take(cand.len() as int) =~= cand);
    out
}

pub proof fn lemma_value_prefix(
    s: Seq<(Seq<char>, Seq<char>)>,
    t: Seq<(Seq<char>, Seq<char>)>,
    d: Seq<char>,
    i: int,
)
    requires
        0 <= i <= s.len() <= t.len(),
        s == t.take(s.len() as int),
        list::first_from(s, binds(d), i) is Some,
    ensures
        list::first_from(t, binds(d), i) == list::first_from(s, binds(d), i),
    decreases s.len() - i,
{
    if i < s.len() {
        assert(s[i] == t[i]);
        if !binds(d)(s[i]) {
            lemma_value_prefix(s, t, d, i + 1);
        }
    }
}

/// The required scope opens the merged one.
pub proof fn lemma_merge_extends(
    required: Seq<(Seq<char>, Seq<char>)>,
    candidate: Seq<(Seq<char>, Seq<char>)>,
)
    ensures
        required.len() <= merged(required, candidate).len(),
        merged(required, candidate).take(required.len() as int) == required,
    decreases candidate.len(),
{
    if candidate.len() > 0 {
        lemma_merge_extends(required, candidate.drop_last());
        let front = merged(required, candidate.drop_last());
        assert(merged(required, candidate).take(required.len() as int) =~= front.take(
            required.len() as int,
        ));
    } else {
        assert(required.take(required.len() as int) =~= required);
    }
}

/// What a scope binds, every longer scope binds to the same value.
pub proof fn lemma_opens_superset(
    scope: Seq<(Seq<char>, Seq<char>)>,
    prefix: Seq<(Seq<char>, Seq<char>)>,
)
    requires
        opens(scope, prefix),
        superset(prefix, prefix),
    ensures
        superset(scope, prefix),
{
    assert forall|i: int| 0 <= i < prefix.len() implies value_of(
        scope,
        (#[trigger] prefix[i]).0,
    ) == Some(prefix[i].1) by {
        let d = prefix[i].0;
        assert(value_of(prefix, d) == Some(prefix[i].1));
        lemma_value_prefix(prefix, scope, d, 0);
        list::lemma_first_from(prefix, binds(d), 0);
        let k = list::first_from(prefix, binds(d), 0)->0;
        assert(scope[k] == scope.take(prefix.len() as int)[k]);
    }
}

/// Merging keeps what was required: where no dimension is required twice with
/// different values, the merged scope is a superset of the required one, and
/// every dimension of the candidate is bound.
pub proof fn law_merge_keeps_required(
    required: Seq<(Seq<char>, Seq<char>)>,
    candidate: Seq<(Seq<char>, Seq<char>)>,
)
    requires
        superset(required, required),
    ensures
        superset(merged(required, candidate), required),
        forall|i: int|
            0 <= i < candidate.len() ==> has_dimension(
                merged(required, candidate),
                (#[trigger] candidate[i]).0,
            ),
    decreases candidate.len(),
{
    lemma_merge_extends(required, candidate);
    let all = merged(required, candidate);
    lemma_opens_superset(all, required);
    if candidate.len() > 0 {
        let front = merged(required, candidate.drop_last());
        law_merge_keeps_required(required, candidate.drop_last());
        assert forall|i: int| 0 <= i < candidate.len() implies has_dimension(
            all,
            (#[trigger] candidate[i]).0,
        ) by {
            let d = candidate[i].0;
            if i < candidate.len() - 1 {
                assert(candidate.drop_last()[i] == candidate[i]);
                assert(has_dimension(front, d));
                assert(all.take(front.len() as int) =~= front);
                lemma_value_prefix(front, all, d, 0);
            } else if !has_dimension(front, d) {
                list::lemma_first_from(all, binds(d), 0);
                assert(binds(d)(all[all.len() - 1]));
            }
        }
    }
}

/// Merging a scope with itself, or with anything that binds no further
/// dimension, changes nothing.
pub proof fn law_merge_idempotent(
    required: Seq<(Seq<char>, Seq<char>)>,
    candidate: Seq<(Seq<char>, Seq<char>)>,
)
    requires
        forall|i: int|
            0 <= i < candidate.len() ==> has_dimension(required, (#[trigger] candidate[i]).0),
    ensures
        merged(required, candidate) == required,
    decreases candidate.len(),
{
    if candidate.len() > 0 {
        assert forall|i: int| 0 <= i < candidate.len() - 1 implies has_dimension(
            required,
            (#[trigger] candidate.drop_last()[i]).0,
        ) by {
            assert(candidate.drop_last()[i] == candidate[i]);
        }
        law_merge_idempotent(required, candidate.drop_last());
        assert(candidate[candidate.len() - 1] == candidate.last());
    }
}

/// One binding in words.
pub open spec fn binding_text(b: (Seq<char>, Seq<char>)) -> Seq<char> {
    b.0 + "="@ + b.1
}

/// A scope in words.
pub open spec fn scope_text(scope: Seq<(Seq<char>, Seq<char>)>) -> Seq<char> {
    if scope.len() == 0 {
        "global"@
    } else {
        scan::join(scope.map_values(|b: (Seq<char>, Seq<char>)| binding_text(b)), ", "@)
    }
}

fn binding_texts(scope: &[(String, String)]) -> (r: Vec<String>)
    ensures
        text::views(r@) == bindings(scope@).map_values(
            |b: (Seq<char>, Seq<char>)| binding_text(b),
        ),
{
    let mut parts: Vec<String> = Vec::new();
    let mut i: usize = 0;
    while i < scope.len()
        invariant
            i <= scope.len(),
            parts.len() == i,
            forall|j: int|
                0 <= j < i ==> (#[trigger] parts@[j])@ == binding_text(bindings(scope@)[j]),
        decreases scope.len() - i,
    {
        parts.push(cat3(scope[i].0.as_str(), "=", scope[i].1.as_str()));
        i += 1;
    }
    assert(text::views(parts@) =~= bindings(scope@).map_values(
        |b: (Seq<char>, Seq<char>)| binding_text(b),
    ));
    parts
}

/// A scope in words, `global` where nothing is bound.
pub fn format_scope(scope: &[(String, String)]) -> (r: String)
    ensures
        r@ == scope_text(bindings(scope@)),
{
    if scope.len() == 0 {
        "global".to_owned()
    } else {
        let parts = binding_texts(scope);
        join_text(&parts, ", ")
    }
}

/// The key under which a scope is filed.
pub open spec fn scope_key(scope: Seq<(Seq<char>, Seq<char>)>) -> Seq<char> {
    if scope.len() == 0 {
        "global"@
    } else {
        scan::join(scope.map_values(|b: (Seq<char>, Seq<char>)| binding_text(b)), ","@)
    }
}

/// The key under which a scope is filed.
pub fn investigation_scope_key(scope: &[(String, String)]) -> (r: String)
    ensures
        r@ == scope_key(bindings(scope@)),
{
    if scope.len() == 0 {
        "global".to_owned()
    } else {
        let parts = binding_texts(scope);
        join_text(&parts, ",")
    }
}

/// Whether two scopes hold the same bindings in the same order.
pub fn same_scope(a: &[(String, String)], b: &[(String, String)]) -> (r: bool)
    ensures
        r == (bindings(a@) == bindings(b@)),
{
    if a.len() != b.len() {
        assert(bindings(a@).len() != bindings(b@).len());
        return false;
    }
    let mut i: usize = 0;
    while i < a.len()
        invariant
            i <= a.len(),
            a.len() == b.len(),
            forall|j: int| 0 <= j < i ==> bindings(a@)[j] == bindings(b@)[j],
        decreases a.len() - i,
    {
        if !same(a[i].0.as_str(), b[i].0.as_str()) || !same(a[i].1.as_str(), b[i].1.as_str()) {
            assert(bindings(a@)[i as int] != bindings(b@)[i as int]);
            return false;
        }
        i += 1;
    }
    assert(bindings(a@) =~= bindings(b@));
    true
}

/// `prefix` opens `scope`.
pub open spec fn opens(
    scope: Seq<(Seq<char>, Seq<char>)>,
    prefix: Seq<(Seq<char>, Seq<char>)>,
) -> bool {
    prefix.len() <= scope.len() && scope.take(prefix.len() as int) == prefix
}

/// Whether `prefix` opens `scope`.
pub fn scope_starts_with(scope: &[(String, String)], prefix: &[(String, String)]) -> (r: bool)
    ensures
        r == opens(bindings(scope@), bindings(prefix@)),
{
    if prefix.len() > scope.len() {
        return false;
    }
    let mut i: usize = 0;
    while i < prefix.len()
        invariant
            i <= prefix.len() <= scope.len(),
            forall|j: int| 0 <= j < i ==> bindings(scope@)[j] == bindings(prefix@)[j],
        decreases prefix.len() - i,
    {
        if !same(scope[i].0.as_str(), prefix[i].0.as_str()) || !same(
            scope[i].1.as_str(),
            prefix[i].1.as_str(),
        ) {
            assert(bindings(scope@).take(prefix@.len() as int)[i as int] != bindings(
                prefix@,
            )[i as int]);
            return false;
        }
        i += 1;
    }
    assert(bindings(scope@).take(prefix@.len() as int) =~= bindings(prefix@));
    true
}

/// Two scopes are in conflict exactly where the second binds a dimension of the
/// first to another value; what is told is such a binding, with both values.
pub proof fn law_conflicts_bind_a_dimension_twice(
    prior: Seq<(Seq<char>, Seq<char>)>,
    next: Seq<(Seq<char>, Seq<char>)>,
)
    ensures
        match conflict(prior, next) {
            Some(c) => prior.contains((c.0, c.1)) && c.1 != c.2 && value_of(next, c.0) == Some(c.2),
            None => forall|i: int|
                0 <= i < prior.len() && has_dimension(next, (#[trigger] prior[i]).0) ==> value_of(
                    next,
                    prior[i].0,
                ) == Some(prior[i].1),
        },
{
    list::lemma_first_from(prior, contradicted(next), 0);
    match list::first_from(prior, contradicted(next), 0) {
        Some(k) => {
            assert(contradicted(next)(prior[k]));
        },
        None => {
            assert forall|i: int|
                0 <= i < prior.len() && has_dimension(
                    next,
                    (#[trigger] prior[i]).0,
                ) implies value_of(next, prior[i].0) == Some(prior[i].1) by {
                assert(!contradicted(next)(prior[i]));
            }
        },
    }
}

/// The value of a dimension is that of the first binding whose name is the
/// dimension's without regard to case.
pub proof fn law_the_first_binding_gives_the_value(
    scope: Seq<(Seq<char>, Seq<char>)>,
    dimension: Seq<char>,
    i: int,
)
    requires
        0 <= i < scope.len(),
        text::same_ignoring_case(scope[i].0, dimension),
        forall|j: int|
            0 <= j < i ==> !text::same_ignoring_case((#[trigger] scope[j]).0, dimension),
    ensures
        has_dimension(scope, dimension),
        value_of(scope, dimension) == Some(scope[i].1),
{
    list::lemma_first_from(scope, binds(dimension), 0);
    assert(binds(dimension)(scope[i]));
    match list::first_from(scope, binds(dimension), 0) {
        Some(k) => {
            if k < i {
                assert(!text::same_ignoring_case(scope[k].0, dimension));
            }
            if i < k {
                assert(!binds(dimension)(scope[i]));
            }
        },
        None => {},
    }
}

proof fn lemma_first_kept<T>(s: Seq<T>, p: spec_fn(T) -> bool, x: T)
    ensures
        list::first_from(s, p, 0) is Some ==> list::first_from(s.push(x), p, 0) == list::first_from(
            s,
            p,
            0,
        ),
        list::first_from(s, p, 0) is None ==> list::first_from(s.push(x), p, 0) == (if p(x) {
            Some(s.len() as int)
        } else {
            None
        }),
{
    let t = s.push(x);
    list::lemma_first_from(s, p, 0);
    list::lemma_first_from(t, p, 0);
    match (list::first_from(s, p, 0), list::first_from(t, p, 0)) {
        (Some(a), Some(b)) => {
            assert(t[a] == s[a]);
            if b < a {
                assert(t[b] == s[b]);
            }
            if a < b {
                assert(p(t[a]));
            }
        },
        (Some(a), None) => {
            assert(t[a] == s[a]);
        },
        (None, Some(b)) => {
            if b < s.len() {
                assert(t[b] == s[b]);
            }
        },
        (None, None) => {
            assert(t[s.len() as int] == x);
        },
    }
}

/// A merged scope binds each dimension as the required scope does, and a
/// dimension that this one leaves free as the candidate does.
pub proof fn law_merged_scopes_take_free_dimensions_from_the_candidate(
    required: Seq<(Seq<char>, Seq<char>)>,
    candidate: Seq<(Seq<char>, Seq<char>)>,
    dimension: Seq<char>,
)
    ensures
        has_dimension(required, dimension) ==> value_of(merged(required, candidate), dimension)
            == value_of(required, dimension),
        !has_dimension(required, dimension) ==> value_of(merged(required, candidate), dimension)
            == value_of(candidate, dimension),
    decreases candidate.len(),
{
    if candidate.len() > 0 {
        let front = candidate.drop_last();
        let last = candidate.last();
        law_merged_scopes_take_free_dimensions_from_the_candidate(required, front, dimension);
        let m = merged(required, front);
        lemma_first_kept(m, binds(dimension), last);
        lemma_first_kept(front, binds(dimension), last);
        assert(front.push(last) =~= candidate);
        list::lemma_first_from(m, binds(dimension), 0);
        list::lemma_first_from(m, binds(last.0), 0);
        list::lemma_first_from(front, binds(dimension), 0);
        list::lemma_first_from(required, binds(dimension), 0);
        if has_dimension(m, last.0) && binds(dimension)(last) && !has_dimension(m, dimension) {
            let k = list::first_from(m, binds(last.0), 0)->0;
            assert(binds(last.0)(m[k]));
            assert(binds(dimension)(m[k]));
        }
    }
}

} // verus!
