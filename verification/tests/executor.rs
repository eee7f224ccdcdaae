use cypherlite_query::executor::compare::{cmp_ord, cmp_str};
use cypherlite_query::executor::datetime::{days_from_civil, parse_iso8601_to_millis};
use cypherlite_query::executor::{
    eval_count_expr, expr_display_name, group_key_name, is_edge_temporally_valid, is_system_property,
    is_temporal_edge_property, validate_no_system_properties, ExecutionError, TemporalFilter,
};
use cypherlite_query::parser::ast::{BinaryOp, Expression, Literal};

#[test]
fn test_execution_error_display() {
    let err = ExecutionError {
        message: "test error".to_string(),
    };
    assert_eq!(err.to_string(), "Execution error: test error");
}

#[test]
fn test_execution_error_is_error_trait() {
    let err = ExecutionError {
        message: "test".to_string(),
    };
    // The error is reported through its Debug form and its rendered message.
    let _: &dyn std::fmt::Debug = &err;
    assert_eq!(err.to_string(), "Execution error: test");
}

#[test]
fn test_valid_from_is_not_system_property() {
    assert!(!is_system_property("_valid_from"));
    assert!(!is_system_property("_valid_to"));
}

#[test]
fn test_temporal_edge_property_detection() {
    assert!(is_temporal_edge_property("_valid_from"));
    assert!(is_temporal_edge_property("_valid_to"));
    assert!(!is_temporal_edge_property("_created_at"));
    assert!(!is_temporal_edge_property("name"));
}

#[test]
fn system_properties_are_recognized() {
    assert!(is_system_property("_created_at"));
    assert!(is_system_property("_updated_at"));
    assert!(!is_system_property("created_at"));
    assert!(!is_system_property(""));
}

#[test]
fn validate_accepts_user_properties() {
    let props = Some(vec![
        ("name".to_string(), Expression::Literal(Literal::String("Alice".to_string()))),
        ("_valid_from".to_string(), Expression::Literal(Literal::Integer(1))),
    ]);
    assert_eq!(validate_no_system_properties(&props), Ok(()));
    assert_eq!(validate_no_system_properties(&None), Ok(()));
    assert_eq!(validate_no_system_properties(&Some(vec![])), Ok(()));
}

#[test]
fn validate_reports_first_system_property() {
    let props = Some(vec![
        ("name".to_string(), Expression::Literal(Literal::Integer(1))),
        ("_updated_at".to_string(), Expression::Literal(Literal::Integer(2))),
        ("_created_at".to_string(), Expression::Literal(Literal::Integer(3))),
    ]);
    let err = validate_no_system_properties(&props).expect_err("system property");
    assert_eq!(err.message, "System property is read-only: _updated_at");
}

#[test]
fn edge_without_valid_from_is_always_valid() {
    assert!(is_edge_temporally_valid(None, None, &TemporalFilter::AsOf(0)));
    assert!(is_edge_temporally_valid(None, Some(5), &TemporalFilter::Between(10, 20)));
}

#[test]
fn edge_valid_at_point_in_time() {
    let f = TemporalFilter::AsOf(100);
    assert!(is_edge_temporally_valid(Some(100), None, &f));
    assert!(is_edge_temporally_valid(Some(50), Some(101), &f));
    assert!(!is_edge_temporally_valid(Some(50), Some(100), &f));
    assert!(!is_edge_temporally_valid(Some(101), None, &f));
}

#[test]
fn edge_valid_over_range() {
    let f = TemporalFilter::Between(100, 200);
    assert!(is_edge_temporally_valid(Some(200), None, &f));
    assert!(!is_edge_temporally_valid(Some(201), None, &f));
    assert!(is_edge_temporally_valid(Some(0), Some(101), &f));
    assert!(!is_edge_temporally_valid(Some(0), Some(100), &f));
}

#[test]
fn cmp_ord_on_integers() {
    assert!(cmp_ord(&1, &1, BinaryOp::Eq));
    assert!(cmp_ord(&1, &2, BinaryOp::Neq));
    assert!(cmp_ord(&1, &2, BinaryOp::Lt));
    assert!(cmp_ord(&2, &2, BinaryOp::Lte));
    assert!(cmp_ord(&3, &2, BinaryOp::Gt));
    assert!(!cmp_ord(&1, &2, BinaryOp::Gte));
    assert!(!cmp_ord(&1, &1, BinaryOp::Add));
}

#[test]
fn display_names_of_expressions() {
    let prop = Expression::Property(Box::new(Expression::Variable("n".to_string())), "age".to_string());
    assert_eq!(expr_display_name(&prop), "n.age");
    assert_eq!(expr_display_name(&Expression::Variable("x".to_string())), "x");
    assert_eq!(expr_display_name(&Expression::CountStar), "count(*)");
    assert_eq!(expr_display_name(&Expression::Literal(Literal::Integer(1))), "expr");
    assert_eq!(group_key_name(&prop), "age");
    assert_eq!(group_key_name(&Expression::Variable("x".to_string())), "x");
    assert_eq!(group_key_name(&Expression::CountStar), "key");
}

#[test]
fn days_from_civil_known_dates() {
    assert_eq!(days_from_civil(1970, 1, 1), 0);
    assert_eq!(days_from_civil(1969, 12, 31), -1);
    assert_eq!(days_from_civil(2000, 3, 1), 11017);
    assert_eq!(days_from_civil(2024, 1, 15), 19737);
}

#[test]
fn iso8601_date_only() {
    assert_eq!(parse_iso8601_to_millis("2024-01-15"), Ok(1705276800000));
    assert_eq!(parse_iso8601_to_millis("  2024-01-15\n"), Ok(1705276800000));
}

#[test]
fn iso8601_date_time_and_offsets() {
    assert_eq!(parse_iso8601_to_millis("2024-01-15T10:30:00"), Ok(1705314600000));
    assert_eq!(parse_iso8601_to_millis("2024-01-15T10:30:00Z"), Ok(1705314600000));
    assert_eq!(parse_iso8601_to_millis("2024-01-15T10:30:00+09:00"), Ok(1705282200000));
    assert_eq!(parse_iso8601_to_millis("2024-01-15T10:30:00-01:30"), Ok(1705320000000));
}

#[test]
fn iso8601_errors() {
    assert_eq!(parse_iso8601_to_millis("abc"), Err("invalid datetime: 'abc'".to_string()));
    assert_eq!(parse_iso8601_to_millis("2024/01/15"), Err("invalid datetime: '2024/01/15'".to_string()));
    assert_eq!(parse_iso8601_to_millis("abcd-01-15"), Err("invalid year in 'abcd-01-15'".to_string()));
    assert_eq!(parse_iso8601_to_millis("2024-13-01"), Err("invalid date values in '2024-13-01'".to_string()));
    assert_eq!(
        parse_iso8601_to_millis("2024-01-15X10:30:00"),
        Err("expected 'T' separator in '2024-01-15X10:30:00'".to_string())
    );
    assert_eq!(
        parse_iso8601_to_millis("2024-01-15T10:30"),
        Err("incomplete time in '2024-01-15T10:30'".to_string())
    );
    assert_eq!(
        parse_iso8601_to_millis("2024-01-15T10:30:00+0900"),
        Err("invalid timezone in '2024-01-15T10:30:00+0900'".to_string())
    );
}

#[test]
fn iso8601_non_ascii_fields_are_refused() {
    assert_eq!(parse_iso8601_to_millis("2024-0é-15"), Err("invalid month in '2024-0é-15'".to_string()));
    assert_eq!(parse_iso8601_to_millis("202é-01-15"), Err("invalid year in '202é-01-15'".to_string()));
    assert_eq!(parse_iso8601_to_millis("2024-01-1é"), Err("invalid day in '2024-01-1é'".to_string()));
    assert_eq!(
        parse_iso8601_to_millis("2024-01-15T1é:30:00"),
        Err("invalid hour in '2024-01-15T1é:30:00'".to_string())
    );
    assert_eq!(
        parse_iso8601_to_millis("2024-01-15T10:30:00+01é0"),
        Err("invalid timezone minute in '2024-01-15T10:30:00+01é0'".to_string())
    );
}

#[test]
fn test_eval_count_expr_positive() {
    let expr = Expression::Literal(Literal::Integer(10));
    assert_eq!(eval_count_expr(&expr), Ok(10));
}

#[test]
fn test_eval_count_expr_zero() {
    let expr = Expression::Literal(Literal::Integer(0));
    assert_eq!(eval_count_expr(&expr), Ok(0));
}

#[test]
fn test_eval_count_expr_negative_fails() {
    let expr = Expression::Literal(Literal::Integer(-5));
    assert!(eval_count_expr(&expr).is_err());
}

#[test]
fn test_eval_count_expr_non_integer_fails() {
    let expr = Expression::Variable("n".to_string());
    assert!(eval_count_expr(&expr).is_err());
}

#[test]
fn eval_count_expr_error_messages() {
    let neg = eval_count_expr(&Expression::Literal(Literal::Integer(-1)));
    assert_eq!(neg.unwrap_err().message, "SKIP/LIMIT count must be non-negative");
    let other = eval_count_expr(&Expression::Literal(Literal::Bool(true)));
    assert_eq!(other.unwrap_err().message, "SKIP/LIMIT count must be a literal integer");
}

#[test]
fn iso_zone_suffixes_agree() {
    let base = parse_iso8601_to_millis("2024-01-15T10:30:00").unwrap();
    assert_eq!(base, 1_705_314_600_000);
    assert_eq!(parse_iso8601_to_millis("2024-01-15T10:30:00Z"), Ok(base));
    let o = (1 * 60 + 30) * 60_000;
    assert_eq!(parse_iso8601_to_millis("2024-01-15T10:30:00+01:30"), Ok(base - o));
    assert_eq!(parse_iso8601_to_millis("2024-01-15T10:30:00-01:30"), Ok(base + o));
    assert_eq!(
        parse_iso8601_to_millis("2024-01-15"),
        parse_iso8601_to_millis("2024-01-15T00:00:00")
    );
}

#[test]
fn days_from_civil_across_month_and_year_ends() {
    assert_eq!(days_from_civil(1970, 1, 1), 0);
    assert_eq!(days_from_civil(1969, 12, 31), -1);
    assert_eq!(days_from_civil(2024, 1, 15), 19737);
    assert_eq!(days_from_civil(2024, 3, 1), days_from_civil(2024, 2, 29) + 1);
    assert_eq!(days_from_civil(2023, 3, 1), days_from_civil(2023, 2, 28) + 1);
    assert_eq!(days_from_civil(2000, 3, 1), days_from_civil(2000, 2, 29) + 1);
    assert_eq!(days_from_civil(2025, 1, 1), days_from_civil(2024, 12, 31) + 1);
    assert_eq!(days_from_civil(2024, 5, 1), days_from_civil(2024, 4, 30) + 1);
}

#[test]
fn string_comparison_follows_string_order() {
    let pairs = ["", "a", "ab", "abc", "b", "B", "é", "z", "ä", "aé"];
    let ops = [BinaryOp::Eq, BinaryOp::Neq, BinaryOp::Lt, BinaryOp::Lte, BinaryOp::Gt, BinaryOp::Gte];
    for x in pairs.iter() {
        for y in pairs.iter() {
            for op in ops.iter() {
                let want = match op {
                    BinaryOp::Eq => x == y,
                    BinaryOp::Neq => x != y,
                    BinaryOp::Lt => x < y,
                    BinaryOp::Lte => x <= y,
                    BinaryOp::Gt => x > y,
                    _ => x >= y,
                };
                assert_eq!(cmp_str(x, y, *op), want, "{:?} {:?} {:?}", x, op, y);
            }
        }
    }
    assert!(cmp_str("apple", "banana", BinaryOp::Lt));
    assert!(!cmp_str("apple", "apple", BinaryOp::Lt));
    assert!(!cmp_str("a", "b", BinaryOp::Add));
}
