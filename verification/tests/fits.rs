//! Factor models: names and labels, attributions, prices and reports.

use factorlens::attribution::{
    attribution_header, build_prompt_context, deterministic_answer, exposure_header,
    find_attribution_columns, find_worst_day, AttributionInsight, Contribution, InsightTexts,
    ModelBrief,
};
use factorlens::dates::Date;
use factorlens::factors::{
    auto_factor_labels, factor_index, factor_normal_name, factor_with_label,
    normalize_factor_name, parse_factor_labels,
};
use factorlens::market::{
    align_portfolio_and_factors, auto_factor_count, check_model_weights, check_price_weights,
    distinct_tickers, drop_weekends, equal_weights, find_factor_columns, kept_factor_count,
    list_priced_weights, plan_returns, rank_outliers, rank_values, read_factor_days,
    read_price_day, weights_for, PortfolioWeight, PricePoint,
};
use factorlens::model_report::{markdown_report, ModelSummary, OutlierTexts};
use factorlens::num::Num;

fn text(s: &str) -> String {
    s.to_string()
}

fn names(xs: &[&str]) -> Vec<String> {
    xs.iter().map(|x| text(x)).collect()
}

fn num(x: f64) -> Num {
    Num { bits: x.to_bits() }
}

fn day(year: i32, month: u32, day: u32) -> Date {
    Date { year, month, day }
}

fn price(date: Date, ticker: &str, close: f64) -> PricePoint {
    PricePoint {
        date,
        ticker: text(ticker),
        close: num(close),
    }
}

fn weight(ticker: &str, w: f64) -> PortfolioWeight {
    PortfolioWeight {
        ticker: text(ticker),
        weight: num(w),
    }
}

#[test]
fn factor_names_become_columns() {
    assert_eq!(normalize_factor_name(" 2 "), "factor_2_contrib");
    assert_eq!(normalize_factor_name("factor_2"), "factor_2_contrib");
    assert_eq!(normalize_factor_name("factor_2_contrib"), "factor_2_contrib");
    let once = normalize_factor_name(" momentum");
    assert_eq!(normalize_factor_name(&once), once);
}

#[test]
fn numbered_factors_have_usual_names() {
    assert_eq!(factor_index("factor_12_contrib"), Some(12));
    assert_eq!(factor_index("factor_+3"), Some(3));
    assert_eq!(factor_index("factor_"), None);
    assert_eq!(factor_index("factor_99999999999999999999999"), None);
    assert_eq!(factor_index("12"), None);
    assert_eq!(factor_normal_name("factor_1"), "Primary Shared Move");
    assert_eq!(factor_normal_name("factor_5_contrib"), "Higher-Order Pattern");
    assert_eq!(factor_normal_name("factor_6"), "Latent Statistical Factor");
}

#[test]
fn label_files_are_read_line_by_line() {
    let labels = parse_factor_labels("Factor,Label\n# note\n\n1, Market \nfactor_2\tSize\n1,Beta\n")
        .expect("labels");
    assert_eq!(
        labels,
        vec![
            (text("factor_1_contrib"), text("Market")),
            (text("factor_2_contrib"), text("Size")),
            (text("factor_1_contrib"), text("Beta"))
        ]
    );
    assert_eq!(
        factor_with_label("factor_1", &labels),
        "factor_1_contrib (Beta)"
    );
    assert_eq!(
        factor_with_label("factor_3", &labels),
        "factor_3_contrib (Cross-Asset Spread)"
    );
    assert_eq!(
        parse_factor_labels("nothing").err(),
        Some(text(
            "invalid factor label line 'nothing'; expected factor,label"
        ))
    );
    assert_eq!(
        parse_factor_labels("1,").err(),
        Some(text(
            "invalid factor label line '1,'; factor and label are required"
        ))
    );
}

#[test]
fn loadings_suggest_labels() {
    let labels = auto_factor_labels(
        1,
        &names(&["A", "B", "C"]),
        &vec![vec![num(0.5)], vec![num(-0.2)], vec![num(0.1)]],
    );
    assert_eq!(
        labels,
        vec![(
            text("factor_1_contrib"),
            text("Primary Shared Move (high: A/C; low: B)")
        )]
    );
    let few = auto_factor_labels(2, &names(&["A"]), &vec![vec![num(0.5)]]);
    assert_eq!(few[0].1, "Primary Shared Move (high: A; low: n/a)");
    assert_eq!(few[1].1, "Secondary Shared Move (high: n/a; low: n/a)");
    let two = auto_factor_labels(1, &names(&["A", "B"]), &vec![vec![num(0.7)], vec![num(-0.7)]]);
    assert_eq!(two[0].1, "Primary Shared Move (high: A; low: B)");
    let many = auto_factor_labels(
        1,
        &names(&["A", "B", "C", "D", "E", "F"]),
        &vec![
            vec![num(0.1)],
            vec![num(-0.3)],
            vec![num(0.4)],
            vec![num(-0.1)],
            vec![num(0.2)],
            vec![num(-0.2)],
        ],
    );
    assert_eq!(many[0].1, "Primary Shared Move (high: C/E; low: B/F)");
}

#[test]
fn written_columns_are_found_again() {
    let header = attribution_header(3);
    assert_eq!(
        header,
        names(&[
            "date",
            "factor_1_contrib",
            "factor_2_contrib",
            "factor_3_contrib",
            "total_factor_contrib"
        ])
    );
    let all = find_attribution_columns(&header, &vec![]).expect("columns");
    assert_eq!((all.date, all.total), (0, 4));
    assert_eq!(all.factors, vec![1, 2, 3]);
    let some = find_attribution_columns(&header, &names(&["2", "factor_3"])).expect("columns");
    assert_eq!(some.factors, vec![2, 3]);
    assert_eq!(
        find_attribution_columns(&names(&["date"]), &vec![]).err(),
        Some(text("attribution.csv missing total_factor_contrib column"))
    );
    assert_eq!(
        find_attribution_columns(&names(&["total_factor_contrib"]), &vec![]).err(),
        Some(text("attribution.csv missing date column"))
    );
    assert_eq!(exposure_header(2), names(&["ticker", "factor_1", "factor_2"]));
}

fn insight(date: &str, total: f64, factors: &[(&str, f64)]) -> AttributionInsight {
    AttributionInsight {
        date: text(date),
        total: num(total),
        factors: factors
            .iter()
            .map(|(f, v)| Contribution {
                factor: text(f),
                value: num(*v),
            })
            .collect(),
    }
}

fn texts(i: &AttributionInsight) -> InsightTexts {
    let value = |n: Num| f64::from_bits(n.bits);
    let total = value(i.total);
    InsightTexts {
        total: format!("{:.6}", total),
        values: i
            .factors
            .iter()
            .map(|c| format!("{:.6}", value(c.value)))
            .collect(),
        share: match i.factors.first() {
            Some(c) if total.abs() > 1e-12 => format!("{:.1}", value(c.value) / total * 100.0),
            _ => format!("{:.1}", 0.0),
        },
    }
}

#[test]
fn the_worst_day_answers_a_question_about_a_drawdown() {
    let days = vec![
        insight("2026-01-01", -0.1, &[("factor_1_contrib", -0.1)]),
        insight(
            "2026-01-02",
            -0.5,
            &[("factor_1_contrib", -0.1), ("factor_2_contrib", -0.4)],
        ),
        insight("2026-01-03", -0.5, &[]),
    ];
    let worst = find_worst_day(&days).expect("a day");
    assert_eq!(worst.date, "2026-01-02");
    assert_eq!(worst.factors[0].factor, "factor_2_contrib");
    let t = texts(&worst);
    let some = Some(worst);
    let answer = deterministic_answer("Why the DRAWDOWN?", &some, &t, &vec![]);
    assert_eq!(
        answer,
        Some(text("Largest modeled drawdown day is 2026-01-02 with total factor contribution -0.500000. Primary driver is factor_2_contrib (Secondary Shared Move) at -0.400000 (80.0% of total). Other selected factor contributions: factor_1_contrib (Primary Shared Move)=-0.100000."))
    );
    assert_eq!(deterministic_answer("Why?", &some, &t, &vec![]), None);
    let empty = Some(insight("2026-01-03", -0.5, &[]));
    let none = InsightTexts {
        total: text(""),
        values: vec![],
        share: text(""),
    };
    assert_eq!(
        deterministic_answer("drop", &empty, &none, &vec![]),
        Some(text("Unable to isolate factor drivers from attribution.csv."))
    );
    assert_eq!(deterministic_answer("drop", &None, &none, &vec![]), None);
    assert!(find_worst_day(&vec![]).is_none());

    let context = build_prompt_context(
        &ModelBrief {
            k: 2,
            assets: 3,
            observations: 40,
            variances: names(&["0.5000", "0.2500"]),
            outliers: vec![(text("2026-01-09"), text("0.12345"))],
            artifacts: text("out"),
        },
        &names(&["1", "2"]),
        &some,
        &t,
        &vec![],
    );
    assert_eq!(
        context,
        "k=2 | assets=3 | observations=40\nexplained_variance=factor_1: 0.5000, factor_2: 0.2500\noutliers=2026-01-09 residual 0.12345\nfocus_factors=1,2\nartifacts_dir=out\nworst_day_total_factor_contrib: date=2026-01-02 value=-0.500000 breakdown: factor_2_contrib (Secondary Shared Move)=-0.400000, factor_1_contrib (Primary Shared Move)=-0.100000"
    );
}

fn two_series(days: u32) -> Vec<PricePoint> {
    let mut out = Vec::new();
    for d in (1..=days).rev() {
        out.push(price(day(2026, 1, d), "B", 10.0 + d as f64));
        out.push(price(day(2026, 1, d), "A", 20.0 + d as f64));
    }
    out
}

#[test]
fn returns_need_prices_tickers_and_days() {
    assert_eq!(plan_returns(&vec![]).err(), Some(text("no prices")));
    assert_eq!(
        plan_returns(&vec![price(day(2026, 1, 1), "A", 1.0)]).err(),
        Some(text("need at least 2 tickers"))
    );
    assert_eq!(
        plan_returns(&two_series(20)).err(),
        Some(text("not enough overlapping return rows (need >= 20)"))
    );
    let plan = plan_returns(&two_series(21)).expect("plan");
    assert_eq!(plan.tickers, names(&["A", "B"]));
    assert_eq!(plan.dates.len(), 20);
    assert_eq!(plan.dates[0], day(2026, 1, 2));
    assert_eq!(plan.steps[0][1].from, num(11.0));
    assert_eq!(plan.steps[0][1].to, num(12.0));
}

#[test]
fn weekends_are_left_out() {
    let prices = vec![
        price(day(2026, 11, 13), "A", 1.0),
        price(day(2026, 11, 14), "A", 1.0),
        price(day(2026, 11, 15), "A", 1.0),
        price(day(2026, 11, 16), "A", 1.0),
    ];
    let kept = drop_weekends(&prices);
    assert_eq!(kept.len(), 2);
    assert_eq!(kept[1].date, day(2026, 11, 16));
    assert_eq!(read_price_day("2026-11-16"), Some(day(2026, 11, 16)));
    assert_eq!(read_price_day("16.11.2026"), None);
}

#[test]
fn tickers_are_listed_once_in_order() {
    assert_eq!(distinct_tickers(&two_series(2)), names(&["A", "B"]));
    assert_eq!(auto_factor_count(0), 1);
    assert_eq!(auto_factor_count(2), 1);
    assert_eq!(auto_factor_count(5), 4);
    assert_eq!(auto_factor_count(50), 10);
    assert_eq!(kept_factor_count(0, 4), 1);
    assert_eq!(kept_factor_count(9, 4), 4);
    assert_eq!(kept_factor_count(3, 4), 3);
}

#[test]
fn the_last_weight_of_a_ticker_counts() {
    let weights = vec![weight("A", 0.1), weight("B", 0.2), weight("A", 0.3)];
    assert_eq!(
        weights_for(&names(&["B", "C", "A"]), &weights),
        vec![num(0.2), num(0.0), num(0.3)]
    );
    let prices = vec![price(day(2026, 1, 1), "A", 1.0)];
    assert_eq!(list_priced_weights(&prices, &weights), vec![num(0.3)]);
    assert_eq!(
        check_model_weights(num(1e-12)),
        Err(text("portfolio has no overlap with model tickers"))
    );
    assert_eq!(check_price_weights(num(1e-12)), Ok(()));
    assert_eq!(
        check_price_weights(num(0.0)),
        Err(text("portfolio weights do not overlap with prices tickers"))
    );
    assert_eq!(equal_weights(&names(&["A", "B"]), num(0.5))[1].ticker, "B");
}

#[test]
fn outliers_come_largest_first() {
    let dates = vec![day(2026, 1, 1), day(2026, 1, 2), day(2026, 1, 3)];
    let out = rank_outliers(&dates, &vec![num(0.1), num(-0.3), num(0.2)], 2);
    assert_eq!(out.len(), 2);
    assert_eq!(out[0].date, day(2026, 1, 2));
    assert_eq!(out[0].abs_residual, num(0.3));
    let ranked = rank_values(&vec![num(1.0), num(3.0), num(2.0)]);
    let places: Vec<usize> = ranked.iter().map(|v| v.place).collect();
    assert_eq!(places, vec![1, 2, 0]);
}

#[test]
fn factor_files_are_lined_up_with_prices() {
    let columns = find_factor_columns(&names(&["MKT", "Date", "SMB"])).expect("columns");
    assert_eq!(columns.date, 1);
    assert_eq!(columns.factors, vec![0, 2]);
    assert_eq!(
        find_factor_columns(&names(&["date"])).err(),
        Some(text(
            "factors CSV must contain date plus at least one factor column"
        ))
    );
    let rows: Vec<Vec<String>> = (1..=9)
        .map(|d| vec![text("0.1"), format!(" 2026-01-{:02} ", d), text("0.2")])
        .collect();
    let days = read_factor_days(&rows, 1).expect("days");
    assert_eq!(days.len(), 9);
    assert_eq!(
        read_factor_days(&vec![], 1).err(),
        Some(text("factors CSV has no rows"))
    );
    assert_eq!(
        read_factor_days(&vec![vec![text("x"), text(" soon ")]], 1).err(),
        Some(text("invalid factor date 'soon'"))
    );
    assert_eq!(
        read_factor_days(&vec![vec![]], 1).err(),
        Some(text("missing factor date"))
    );

    let prices = two_series(9);
    let weights = vec![weight("A", 1.0), weight("C", 1.0)];
    let aligned = align_portfolio_and_factors(&prices, &weights, &days, 2).expect("aligned");
    assert_eq!(aligned.len(), 8);
    assert_eq!(aligned[0].factor_row, 1);
    assert_eq!(aligned[0].steps.len(), 1);
    assert_eq!(aligned[0].steps[0].step.from, num(21.0));
    assert_eq!(
        align_portfolio_and_factors(&prices, &weights, &days, 4).err(),
        Some(text("not enough aligned observations for regression (have 8, need more than factors+4)"))
    );
}

#[test]
fn the_model_report_warns_of_full_models() {
    let outliers = rank_outliers(&vec![day(2026, 1, 2)], &vec![num(1e-6)], 5);
    let page = markdown_report(&ModelSummary {
        first: text("60.0"),
        first_two: text("90.0"),
        first_three: text("90.0"),
        observations: 40,
        assets: 2,
        k: 2,
        ratios: format!("{:?}", vec![0.6, 0.3]),
        outliers,
        texts: vec![OutlierTexts {
            residual: text("0.000001"),
            abs_residual: text("0.000001"),
        }],
    });
    assert!(page.starts_with("# FactorLens Report\n\n## Executive Interpretation\n"));
    assert!(page.contains("near zero and not informative.\n"));
    assert!(page.contains("- Warning: most residual outliers are near zero;"));
    assert!(page.contains("- Top explained variance ratios: [0.6, 0.3]\n\n## Top Outlier Days (Residual)\n- 2026-01-02 residual=0.000001 abs=0.000001\n\n"));
}
