use filter_parser::condition::{FilterCondition, Operator};
use filter_parser::error::FilterError;
use filter_parser::number::Number;
use filter_parser::schema::{AttrSet, FieldsIdsMap, ParseContext};
use filter_parser::FilterFragment;

fn build_context(names: &[&str], filterable: &[&str]) -> ParseContext {
    let mut map = FieldsIdsMap::new();
    for n in names {
        map.insert(n).unwrap();
    }
    let mut set = AttrSet::new();
    for n in filterable {
        set.insert(n);
    }
    ParseContext { fields_ids_map: map, filterable_fields: set }
}

fn number(s: &str) -> Number {
    Number::parse(&s.chars().collect::<Vec<char>>()).unwrap()
}

fn owned(v: &str) -> String {
    v.to_string()
}

#[test]
fn double_negation_identity() {
    // Negating any non-range operator twice restores it.
    let cases = [
        Operator::GreaterThan(number("3")),
        Operator::GreaterThanOrEqual(number("3")),
        Operator::Equal(Some(number("3")), owned("3")),
        Operator::NotEqual(None, owned("x")),
        Operator::LowerThan(number("3")),
        Operator::LowerThanOrEqual(number("3")),
        Operator::GeoLowerThan(number("1"), number("2"), number("3")),
        Operator::GeoGreaterThan(number("1"), number("2"), number("3")),
    ];
    for op in cases {
        let expected = [
            Operator::GreaterThan(number("3")),
            Operator::GreaterThanOrEqual(number("3")),
            Operator::Equal(Some(number("3")), owned("3")),
            Operator::NotEqual(None, owned("x")),
            Operator::LowerThan(number("3")),
            Operator::LowerThanOrEqual(number("3")),
            Operator::GeoLowerThan(number("1"), number("2"), number("3")),
            Operator::GeoGreaterThan(number("1"), number("2"), number("3")),
        ];
        let original = &expected[cases_index(&op)];
        let (once, extra) = op.negate();
        assert_eq!(extra, None);
        let (twice, extra2) = once.negate();
        assert_eq!(extra2, None);
        assert_eq!(&twice, original);
    }
}

fn cases_index(op: &Operator) -> usize {
    match op {
        Operator::GreaterThan(_) => 0,
        Operator::GreaterThanOrEqual(_) => 1,
        Operator::Equal(_, _) => 2,
        Operator::NotEqual(_, _) => 3,
        Operator::LowerThan(_) => 4,
        Operator::LowerThanOrEqual(_) => 5,
        Operator::GeoLowerThan(_, _, _) => 6,
        Operator::GeoGreaterThan(_, _, _) => 7,
        Operator::Between(_, _) => 8,
    }
}

#[test]
fn between_negates_to_disjunction() {
    let (lo, hi) = Operator::Between(number("10"), number("20")).negate();
    assert_eq!(lo, Operator::LowerThan(number("10")));
    assert_eq!(hi, Some(Operator::GreaterThan(number("20"))));
}

#[test]
fn equality_case_folds() {
    let ctx = build_context(&["attr"], &["attr"]);
    let upper = FilterCondition::from_str(&ctx, "attr = VALUE").unwrap();
    let lower = FilterCondition::from_str(&ctx, "attr = value").unwrap();
    let mixed = FilterCondition::from_str(&ctx, "attr = VaLuE").unwrap();
    assert_eq!(upper, lower);
    assert_eq!(mixed, lower);
    assert_eq!(lower, FilterCondition::Operator(0, Operator::Equal(None, owned("value"))));

    // folding is not the identity, and reaches beyond ASCII
    let accented = FilterCondition::from_str(&ctx, "attr = 'ÉTÉ'").unwrap();
    let plain = FilterCondition::from_str(&ctx, "attr = 'été'").unwrap();
    assert_eq!(accented, plain);
}

#[test]
fn quote_styles_agree() {
    let ctx = build_context(&["attr"], &["attr"]);
    let bare = FilterCondition::from_str(&ctx, "attr = word").unwrap();
    let single = FilterCondition::from_str(&ctx, "attr = 'word'").unwrap();
    let double = FilterCondition::from_str(&ctx, "attr = \"word\"").unwrap();
    assert_eq!(bare, single);
    assert_eq!(single, double);
}

#[test]
fn negation_of_comparisons() {
    let ctx = build_context(&["attr"], &["attr"]);
    let condition = FilterCondition::from_str(&ctx, "NOT attr < 10").unwrap();
    assert_eq!(condition, FilterCondition::Operator(0, Operator::GreaterThanOrEqual(number("10"))));

    let condition = FilterCondition::from_str(&ctx, "NOT attr 10 TO 20").unwrap();
    let expected = FilterCondition::Or(
        Box::new(FilterCondition::Operator(0, Operator::LowerThan(number("10")))),
        Box::new(FilterCondition::Operator(0, Operator::GreaterThan(number("20")))),
    );
    assert_eq!(condition, expected);

    // chained negation: the keywords stack only without whitespace between
    let condition = FilterCondition::from_str(&ctx, "!!attr < 10").unwrap();
    assert_eq!(condition, FilterCondition::Operator(0, Operator::LowerThan(number("10"))));
    let condition = FilterCondition::from_str(&ctx, "!NOT attr < 10").unwrap();
    assert_eq!(condition, FilterCondition::Operator(0, Operator::LowerThan(number("10"))));
}

#[test]
fn negation_of_geo() {
    let ctx = build_context(&["_geo"], &["_geo"]);
    let condition = FilterCondition::from_str(&ctx, "_geoRadius(12, 13, 14)").unwrap();
    let expected = FilterCondition::Operator(
        0,
        Operator::GeoLowerThan(number("12"), number("13"), number("14")),
    );
    assert_eq!(condition, expected);

    let condition = FilterCondition::from_str(&ctx, "NOT _geoRadius(12,13,14)").unwrap();
    let expected = FilterCondition::Operator(
        0,
        Operator::GeoGreaterThan(number("12"), number("13"), number("14")),
    );
    assert_eq!(condition, expected);
}

#[test]
fn precedence_and_before_or() {
    let ctx = build_context(&["a", "b", "c"], &["a", "b", "c"]);
    let condition = FilterCondition::from_str(&ctx, "a = 1 AND b = 2 OR c = 3").unwrap();
    let expected = FilterCondition::Or(
        Box::new(FilterCondition::And(
            Box::new(FilterCondition::Operator(0, Operator::Equal(Some(number("1")), owned("1")))),
            Box::new(FilterCondition::Operator(1, Operator::Equal(Some(number("2")), owned("2")))),
        )),
        Box::new(FilterCondition::Operator(2, Operator::Equal(Some(number("3")), owned("3")))),
    );
    assert_eq!(condition, expected);
}

#[test]
fn parentheses_override_precedence() {
    let ctx = build_context(&["a", "b", "c"], &["a", "b", "c"]);
    let condition = FilterCondition::from_str(&ctx, "a = 1 AND (b = 2 OR c = 3)").unwrap();
    let expected = FilterCondition::And(
        Box::new(FilterCondition::Operator(0, Operator::Equal(Some(number("1")), owned("1")))),
        Box::new(FilterCondition::Or(
            Box::new(FilterCondition::Operator(1, Operator::Equal(Some(number("2")), owned("2")))),
            Box::new(FilterCondition::Operator(2, Operator::Equal(Some(number("3")), owned("3")))),
        )),
    );
    assert_eq!(condition, expected);
}

#[test]
fn unknown_attribute_is_rejected() {
    let ctx = build_context(&["known"], &["known"]);
    let result = FilterCondition::from_str(&ctx, "missing = 1");
    assert_eq!(result.unwrap_err(), FilterError::AttributeNotFilterable(owned("missing")));

    // present in the directory, but not enabled for filtering
    let ctx = build_context(&["known", "hidden"], &["known"]);
    let result = FilterCondition::from_str(&ctx, "hidden = 1");
    assert_eq!(result.unwrap_err(), FilterError::AttributeNotFilterable(owned("hidden")));
}

#[test]
fn geo_without_geo_field_is_empty() {
    // The reserved geo field is absent from the schema: the clause
    // degrades to the empty tree instead of failing.
    let ctx = build_context(&["price"], &["price"]);
    let condition = FilterCondition::from_str(&ctx, "_geoRadius(12, 13, 14)").unwrap();
    assert_eq!(condition, FilterCondition::Empty);
}

#[test]
fn geo_bounds_edges() {
    let ctx = build_context(&["_geo"], &["_geo"]);
    // the bounds themselves are allowed
    assert!(FilterCondition::from_str(&ctx, "_geoRadius(90, 180, 1)").is_ok());
    assert!(FilterCondition::from_str(&ctx, "_geoRadius(-90, -180, 1)").is_ok());
    assert!(FilterCondition::from_str(&ctx, "_geoRadius(90.0, -180.0, 0)").is_ok());

    let result = FilterCondition::from_str(&ctx, "_geoRadius(91, 0, 1)");
    assert_eq!(result.unwrap_err(), FilterError::GeoLatitudeOutOfRange);
    let result = FilterCondition::from_str(&ctx, "_geoRadius(-100, 0, 1)");
    assert_eq!(result.unwrap_err(), FilterError::GeoLatitudeOutOfRange);
    let result = FilterCondition::from_str(&ctx, "_geoRadius(0, -181, 1)");
    assert_eq!(result.unwrap_err(), FilterError::GeoLongitudeOutOfRange);
    let result = FilterCondition::from_str(&ctx, "_geoRadius(0, 200.0001, 1)");
    assert_eq!(result.unwrap_err(), FilterError::GeoLongitudeOutOfRange);
}

#[test]
fn invalid_number_errors() {
    let ctx = build_context(&["attr"], &["attr"]);
    let result = FilterCondition::from_str(&ctx, "attr < ponce");
    assert_eq!(result.unwrap_err(), FilterError::InvalidNumber(Some('p')));

    let result = FilterCondition::from_str(&ctx, "attr ''");
    // an empty quoted token where a range bound was expected
    let result2 = FilterCondition::from_str(&ctx, "attr '' TO 3");
    assert!(result.is_err());
    assert_eq!(result2.unwrap_err(), FilterError::InvalidNumber(None));

    // equality swallows the failed numeric reading
    let condition = FilterCondition::from_str(&ctx, "attr = ponce").unwrap();
    assert_eq!(condition, FilterCondition::Operator(0, Operator::Equal(None, owned("ponce"))));
}

#[test]
fn syntax_errors() {
    let ctx = build_context(&["attr"], &["attr"]);
    assert!(matches!(
        FilterCondition::from_str(&ctx, "").unwrap_err(),
        FilterError::SyntaxError(_)
    ));
    assert!(matches!(
        FilterCondition::from_str(&ctx, "attr = ").unwrap_err(),
        FilterError::SyntaxError(_)
    ));
    assert!(matches!(
        FilterCondition::from_str(&ctx, "(attr = 1").unwrap_err(),
        FilterError::SyntaxError(_)
    ));
}

#[test]
fn numbers_read_exactly() {
    let ctx = build_context(&["attr"], &["attr"]);
    // equal written forms give equal numbers
    assert_eq!(number("12e2"), number("1200"));
    assert_eq!(number("0.5"), number(".5"));
    assert_eq!(number("2000"), number("2000.0"));
    assert_eq!(number("-0"), number("0"));
    assert_eq!(number("+3"), number("3"));
    // different values stay different
    assert_ne!(number("12"), number("12.000000000000000001"));
    assert_ne!(number("-3"), number("3"));

    let condition = FilterCondition::from_str(&ctx, "attr > 1.5e1").unwrap();
    assert_eq!(condition, FilterCondition::Operator(0, Operator::GreaterThan(number("15"))));
}

#[test]
fn geo_accepts_exponent_forms() {
    let ctx = build_context(&["_geo"], &["_geo"]);
    let condition = FilterCondition::from_str(&ctx, "_geoRadius(9e1, -1.8e2, 5)").unwrap();
    let expected = FilterCondition::Operator(
        0,
        Operator::GeoLowerThan(number("90"), number("-180"), number("5")),
    );
    assert_eq!(condition, expected);

    let result = FilterCondition::from_str(&ctx, "_geoRadius(9.00001e1, 0, 5)");
    assert_eq!(result.unwrap_err(), FilterError::GeoLatitudeOutOfRange);
}

#[test]
fn extreme_exponents() {
    let ctx = build_context(&["_geo"], &["_geo"]);
    // an astronomically large latitude is out of range
    let result = FilterCondition::from_str(&ctx, "_geoRadius(1e99999999999999999999, 0, 1)");
    assert_eq!(result.unwrap_err(), FilterError::GeoLatitudeOutOfRange);
    // an astronomically small one is within range
    assert!(FilterCondition::from_str(&ctx, "_geoRadius(1e-99999999999999999999, 0, 1)").is_ok());
}

#[test]
fn directory_assigns_ranks() {
    let mut map = FieldsIdsMap::new();
    assert_eq!(map.insert("one"), Some(0));
    assert_eq!(map.insert("two"), Some(1));
    assert_eq!(map.insert("one"), Some(0));
    assert_eq!(map.len(), 2);
    assert_eq!(map.id("two"), Some(1));
    assert_eq!(map.id("three"), None);

    let mut set = AttrSet::new();
    set.insert("one");
    assert!(set.contains("one"));
    assert!(!set.contains("two"));
}

#[test]
fn from_array_matches_written_filter() {
    let ctx = build_context(&["a", "b", "c"], &["a", "b", "c"]);
    let condition = FilterCondition::from_array(
        &ctx,
        vec![
            FilterFragment::AnyOf(vec![owned("a = 1")]),
            FilterFragment::Single(owned("b = 2")),
        ],
    )
    .unwrap()
    .unwrap();
    let expected = FilterCondition::from_str(&ctx, "a = 1 AND b = 2").unwrap();
    assert_eq!(condition, expected);

    // an empty outer array yields no tree at all
    assert_eq!(FilterCondition::from_array(&ctx, vec![]).unwrap(), None);

    // an empty inner list contributes nothing
    let condition = FilterCondition::from_array(
        &ctx,
        vec![FilterFragment::AnyOf(vec![]), FilterFragment::Single(owned("c = 3"))],
    )
    .unwrap()
    .unwrap();
    let expected = FilterCondition::from_str(&ctx, "c = 3").unwrap();
    assert_eq!(condition, expected);

    // the first failing fragment aborts the whole fold
    let result = FilterCondition::from_array(
        &ctx,
        vec![FilterFragment::Single(owned("nope = 1")), FilterFragment::Single(owned("a = 1"))],
    );
    assert_eq!(result.unwrap_err(), FilterError::AttributeNotFilterable(owned("nope")));
}
