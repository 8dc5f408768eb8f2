//! Drivers of a metric: how they are named, filtered and chosen.

use factorlens::drivers::{
    apply_driver_filters, auto_select_numeric_drivers, dedup_driver_specs,
    infer_numeric_driver_agg, numeric_driver_candidates, rank_numeric_columns, DriverAgg,
    DriverSpec,
};
use factorlens::num::Num;

fn text(s: &str) -> String {
    s.to_string()
}

fn num(x: f64) -> Num {
    Num { bits: x.to_bits() }
}

fn spec(label: &str, col_idx: usize, agg: DriverAgg) -> DriverSpec {
    DriverSpec {
        label: text(label),
        col_idx: Some(col_idx),
        agg,
    }
}

fn value(cell: &str) -> Option<f64> {
    cell.trim().parse::<f64>().ok()
}

fn correlation(rows: &[Vec<String>], a: usize, b: usize) -> f64 {
    let pairs: Vec<(f64, f64)> = rows
        .iter()
        .filter_map(|r| Some((value(&r[a])?, value(&r[b])?)))
        .collect();
    let n = pairs.len() as f64;
    let ma = pairs.iter().map(|p| p.0).sum::<f64>() / n;
    let mb = pairs.iter().map(|p| p.1).sum::<f64>() / n;
    let cov: f64 = pairs.iter().map(|p| (p.0 - ma) * (p.1 - mb)).sum();
    let va: f64 = pairs.iter().map(|p| (p.0 - ma).powi(2)).sum();
    let vb: f64 = pairs.iter().map(|p| (p.1 - mb).powi(2)).sum();
    cov / (va.sqrt() * vb.sqrt())
}

fn select(
    headers: &[&str],
    rows: Vec<Vec<String>>,
    metric: usize,
    date: usize,
    top: usize,
) -> Vec<String> {
    let headers: Vec<String> = headers.iter().map(|h| text(h)).collect();
    let correlations: Vec<Num> = numeric_driver_candidates(&headers, &rows, metric, date)
        .iter()
        .map(|(_, idx)| num(correlation(&rows, *idx, metric).abs()))
        .collect();
    auto_select_numeric_drivers(
        &headers,
        &rows,
        metric,
        date,
        &correlations,
        &vec![],
        top,
        false,
    )
    .into_iter()
    .map(|(name, _)| name)
    .collect()
}

#[test]
fn dedup_driver_specs_keeps_first_label_instance() {
    let specs = vec![
        spec("sum(a)", 1, DriverAgg::Sum),
        spec("sum(a)", 2, DriverAgg::Mean),
        spec("avg(b)", 3, DriverAgg::Mean),
    ];

    let out = dedup_driver_specs(specs);
    assert_eq!(out.len(), 2);
    assert_eq!(out[0].label, "sum(a)");
    assert_eq!(out[0].col_idx, Some(1));
    assert!(matches!(out[0].agg, DriverAgg::Sum));
    assert_eq!(out[1].label, "avg(b)");
}

#[test]
fn infer_numeric_driver_agg_detects_mean_like_columns() {
    assert!(matches!(
        infer_numeric_driver_agg("conversion_rate"),
        DriverAgg::Mean
    ));
    assert!(matches!(
        infer_numeric_driver_agg("discount_pct"),
        DriverAgg::Mean
    ));
    assert!(matches!(
        infer_numeric_driver_agg("avg_price_usd"),
        DriverAgg::Mean
    ));
    assert!(matches!(
        infer_numeric_driver_agg("traffic"),
        DriverAgg::Sum
    ));
}

#[test]
fn apply_driver_filters_matches_column_name_and_expression() {
    let included = apply_driver_filters(
        vec![
            spec("sum(revenue_usd)", 1, DriverAgg::Sum),
            spec("count_distinct(channel)", 2, DriverAgg::CountDistinct),
        ],
        &[text("revenue_usd")],
        &[],
    );
    assert_eq!(included.len(), 1);
    assert_eq!(included[0].label, "sum(revenue_usd)");

    let excluded = apply_driver_filters(
        vec![
            spec("sum(revenue_usd)", 1, DriverAgg::Sum),
            spec("count_distinct(channel)", 2, DriverAgg::CountDistinct),
        ],
        &[],
        &[text("channel")],
    );
    assert_eq!(excluded.len(), 1);
    assert_eq!(excluded[0].label, "sum(revenue_usd)");
}

#[test]
fn auto_select_numeric_drivers_skips_count_like_columns() {
    let rows = (0..40)
        .map(|i| {
            vec![
                format!("2026-02-{:02}", (i % 28) + 1),
                format!("{}", 1000.0 + (i as f64 * 10.0)),
                format!("{}", 700.0 + (i as f64 * 8.0)),
                format!("{}", 3 + (i % 5)),
                format!("{}", i % 2),
            ]
        })
        .collect::<Vec<_>>();
    let names = select(
        &[
            "created_at",
            "revenue_usd",
            "net_margin_usd",
            "event_count_per_group",
            "plan_flag",
        ],
        rows,
        1,
        0,
        5,
    );

    assert!(names.contains(&"net_margin_usd".to_string()));
    assert!(!names.contains(&"event_count_per_group".to_string()));
    assert!(!names.contains(&"plan_flag".to_string()));
}

#[test]
fn auto_select_numeric_drivers_respects_zero_top_n() {
    let rows = (0..40)
        .map(|i| {
            vec![
                format!("2026-03-{:02}", (i % 28) + 1),
                format!("{}", 100.0 + (i as f64)),
                format!("{}", 10 + i),
            ]
        })
        .collect::<Vec<_>>();
    let selected = select(&["date", "revenue_usd", "units"], rows, 1, 0, 0);
    assert!(selected.is_empty());
}

#[test]
fn auto_select_numeric_drivers_handles_sparse_metric_values() {
    let rows = (0..120)
        .map(|i| {
            let metric = if i < 24 {
                format!("{}", 100.0 + (i as f64))
            } else {
                "".to_string()
            };
            vec![
                format!("2026-03-{:02}", (i % 28) + 1),
                metric,
                format!("{}", 1000 + i),
            ]
        })
        .collect::<Vec<_>>();
    let names = select(&["date", "revenue_usd", "units"], rows, 1, 0, 3);
    assert!(names.contains(&"units".to_string()));
}

#[test]
fn columns_that_say_the_same_are_chosen_once() {
    let candidates = vec![
        (text("c"), 3),
        (text("b"), 2),
        (text("a"), 1),
        (text("d"), 4),
    ];
    assert_eq!(
        rank_numeric_columns(
            &candidates,
            &vec![num(0.5), num(0.9), num(0.9), num(f64::NAN)]
        ),
        vec![2, 1, 0]
    );

    let headers: Vec<String> = ["day", "revenue", "c", "b", "a"].iter().map(|h| text(h)).collect();
    let rows: Vec<Vec<String>> = (0..30)
        .map(|i| {
            vec![
                text("2026-01-01"),
                format!("{i}"),
                format!("{}", i * 2),
                format!("{}", i * 3),
                format!("{}", i * 5),
            ]
        })
        .collect();
    let found = numeric_driver_candidates(&headers, &rows, 1, 0);
    assert_eq!(found, vec![(text("c"), 2), (text("b"), 3), (text("a"), 4)]);
    let likeness = vec![
        vec![num(1.0), num(0.1), num(0.2)],
        vec![num(0.1), num(1.0), num(0.95)],
        vec![num(0.2), num(0.95), num(1.0)],
    ];
    let choose = |top: usize, dedup: bool| {
        auto_select_numeric_drivers(
            &headers,
            &rows,
            1,
            0,
            &vec![num(0.5), num(0.9), num(0.9)],
            &likeness,
            top,
            dedup,
        )
    };
    assert_eq!(choose(3, true), vec![(text("a"), 4), (text("c"), 2)]);
    assert_eq!(
        choose(3, false),
        vec![(text("a"), 4), (text("b"), 3), (text("c"), 2)]
    );
    assert_eq!(choose(1, true), vec![(text("a"), 4)]);
}

#[test]
fn distinct_drivers_stay_distinct() {
    let once = dedup_driver_specs(vec![
        spec("sum(a)", 1, DriverAgg::Sum),
        spec("avg(b)", 2, DriverAgg::Mean),
    ]);
    let twice = dedup_driver_specs(once.clone());
    assert_eq!(once.len(), twice.len());
    assert_eq!(once[1].label, twice[1].label);
}
