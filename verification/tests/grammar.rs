use filter_parser::condition::FilterCondition as Fc;
use filter_parser::condition::{FilterCondition, Operator};
use filter_parser::number::Number;
use filter_parser::schema::{AttrSet, FieldsIdsMap, ParseContext};
use filter_parser::FilterFragment;

fn context(names: &[&str], filterable: &[&str]) -> ParseContext {
    let mut map = FieldsIdsMap::new();
    for n in names {
        map.insert(n).unwrap();
    }
    let mut set = AttrSet::new();
    for n in filterable {
        set.insert(n);
    }
    ParseContext { fields_ids_map: map, filterable_fields: set }
}

fn num(s: &str) -> Number {
    Number::parse(&s.chars().collect::<Vec<char>>()).unwrap()
}

fn s(v: &str) -> String {
    v.to_string()
}

#[test]
fn string() {
    let ctx = context(
        &["channel", "dog race", "subscribers", "_geo"],
        &["channel", "dog race", "subscribers", "_geo"],
    );

    let test_case = [
        // simple test
        (
            Fc::from_str(&ctx, "channel = Ponce"),
            Fc::Operator(0, Operator::Equal(None, s("ponce"))),
        ),
        (
            Fc::from_str(&ctx, "subscribers = 12"),
            Fc::Operator(2, Operator::Equal(Some(num("12")), s("12"))),
        ),
        // test all the quotes and simple quotes
        (
            Fc::from_str(&ctx, "channel = 'Mister Mv'"),
            Fc::Operator(0, Operator::Equal(None, s("mister mv"))),
        ),
        (
            Fc::from_str(&ctx, "channel = \"Mister Mv\""),
            Fc::Operator(0, Operator::Equal(None, s("mister mv"))),
        ),
        (
            Fc::from_str(&ctx, "'dog race' = Borzoi"),
            Fc::Operator(1, Operator::Equal(None, s("borzoi"))),
        ),
        (
            Fc::from_str(&ctx, "\"dog race\" = Chusky"),
            Fc::Operator(1, Operator::Equal(None, s("chusky"))),
        ),
        (
            Fc::from_str(&ctx, "\"dog race\" = \"Bernese Mountain\""),
            Fc::Operator(1, Operator::Equal(None, s("bernese mountain"))),
        ),
        (
            Fc::from_str(&ctx, "'dog race' = 'Bernese Mountain'"),
            Fc::Operator(1, Operator::Equal(None, s("bernese mountain"))),
        ),
        (
            Fc::from_str(&ctx, "\"dog race\" = 'Bernese Mountain'"),
            Fc::Operator(1, Operator::Equal(None, s("bernese mountain"))),
        ),
        // test all the operators
        (
            Fc::from_str(&ctx, "channel != ponce"),
            Fc::Operator(0, Operator::NotEqual(None, s("ponce"))),
        ),
        (
            Fc::from_str(&ctx, "NOT channel = ponce"),
            Fc::Operator(0, Operator::NotEqual(None, s("ponce"))),
        ),
        (
            Fc::from_str(&ctx, "subscribers < 1000"),
            Fc::Operator(2, Operator::LowerThan(num("1000"))),
        ),
        (
            Fc::from_str(&ctx, "subscribers > 1000"),
            Fc::Operator(2, Operator::GreaterThan(num("1000"))),
        ),
        (
            Fc::from_str(&ctx, "subscribers <= 1000"),
            Fc::Operator(2, Operator::LowerThanOrEqual(num("1000"))),
        ),
        (
            Fc::from_str(&ctx, "subscribers >= 1000"),
            Fc::Operator(2, Operator::GreaterThanOrEqual(num("1000"))),
        ),
        (
            Fc::from_str(&ctx, "NOT subscribers < 1000"),
            Fc::Operator(2, Operator::GreaterThanOrEqual(num("1000"))),
        ),
        (
            Fc::from_str(&ctx, "NOT subscribers > 1000"),
            Fc::Operator(2, Operator::LowerThanOrEqual(num("1000"))),
        ),
        (
            Fc::from_str(&ctx, "NOT subscribers <= 1000"),
            Fc::Operator(2, Operator::GreaterThan(num("1000"))),
        ),
        (
            Fc::from_str(&ctx, "NOT subscribers >= 1000"),
            Fc::Operator(2, Operator::LowerThan(num("1000"))),
        ),
        (
            Fc::from_str(&ctx, "subscribers 100 TO 1000"),
            Fc::Operator(2, Operator::Between(num("100"), num("1000"))),
        ),
        (
            Fc::from_str(&ctx, "NOT subscribers 100 TO 1000"),
            Fc::Or(
                Box::new(Fc::Operator(2, Operator::LowerThan(num("100")))),
                Box::new(Fc::Operator(2, Operator::GreaterThan(num("1000")))),
            ),
        ),
        (
            Fc::from_str(&ctx, "_geoRadius(12, 13, 14)"),
            Fc::Operator(3, Operator::GeoLowerThan(num("12"), num("13"), num("14"))),
        ),
        (
            Fc::from_str(&ctx, "NOT _geoRadius(12, 13, 14)"),
            Fc::Operator(3, Operator::GeoGreaterThan(num("12"), num("13"), num("14"))),
        ),
        // test simple `or` and `and`
        (
            Fc::from_str(&ctx, "channel = ponce AND 'dog race' != 'bernese mountain'"),
            Fc::And(
                Box::new(Fc::Operator(0, Operator::Equal(None, s("ponce")))),
                Box::new(Fc::Operator(1, Operator::NotEqual(None, s("bernese mountain")))),
            ),
        ),
        (
            Fc::from_str(&ctx, "channel = ponce OR 'dog race' != 'bernese mountain'"),
            Fc::Or(
                Box::new(Fc::Operator(0, Operator::Equal(None, s("ponce")))),
                Box::new(Fc::Operator(1, Operator::NotEqual(None, s("bernese mountain")))),
            ),
        ),
        (
            Fc::from_str(
                &ctx,
                "channel = ponce AND 'dog race' != 'bernese mountain' OR subscribers > 1000",
            ),
            Fc::Or(
                Box::new(Fc::And(
                    Box::new(Fc::Operator(0, Operator::Equal(None, s("ponce")))),
                    Box::new(Fc::Operator(1, Operator::NotEqual(None, s("bernese mountain")))),
                )),
                Box::new(Fc::Operator(2, Operator::GreaterThan(num("1000")))),
            ),
        ),
        // test parenthesis
        (
            Fc::from_str(
                &ctx,
                "channel = ponce AND ( 'dog race' != 'bernese mountain' OR subscribers > 1000 )",
            ),
            Fc::And(
                Box::new(Fc::Operator(0, Operator::Equal(None, s("ponce")))),
                Box::new(Fc::Or(
                    Box::new(Fc::Operator(1, Operator::NotEqual(None, s("bernese mountain")))),
                    Box::new(Fc::Operator(2, Operator::GreaterThan(num("1000")))),
                )),
            ),
        ),
        (
            Fc::from_str(
                &ctx,
                "(channel = ponce AND 'dog race' != 'bernese mountain' OR subscribers > 1000) AND _geoRadius(12, 13, 14)",
            ),
            Fc::And(
                Box::new(Fc::Or(
                    Box::new(Fc::And(
                        Box::new(Fc::Operator(0, Operator::Equal(None, s("ponce")))),
                        Box::new(Fc::Operator(1, Operator::NotEqual(None, s("bernese mountain")))),
                    )),
                    Box::new(Fc::Operator(2, Operator::GreaterThan(num("1000")))),
                )),
                Box::new(Fc::Operator(3, Operator::GeoLowerThan(num("12"), num("13"), num("14")))),
            ),
        ),
    ];

    for (result, expected) in test_case {
        assert!(
            result.is_ok(),
            "Filter {:?} was supposed to be parsed but failed with the following error: `{}`",
            expected,
            result.as_ref().unwrap_err().message()
        );
        let filter = result.unwrap();
        assert_eq!(filter, expected);
    }
}

#[test]
fn number() {
    let ctx = context(&["timestamp"], &["timestamp"]);

    let condition = FilterCondition::from_str(&ctx, "timestamp 22 TO 44").unwrap();
    let expected = FilterCondition::Operator(0, Operator::Between(num("22"), num("44")));
    assert_eq!(condition, expected);

    let condition = FilterCondition::from_str(&ctx, "NOT timestamp 22 TO 44").unwrap();
    let expected = FilterCondition::Or(
        Box::new(FilterCondition::Operator(0, Operator::LowerThan(num("22.0")))),
        Box::new(FilterCondition::Operator(0, Operator::GreaterThan(num("44.0")))),
    );
    assert_eq!(condition, expected);
}

#[test]
fn compare() {
    let ctx = context(&["channel", "timestamp", "id"], &["channel", "timestamp", "id"]);

    let condition = FilterCondition::from_str(&ctx, "channel < 20").unwrap();
    let expected = FilterCondition::Operator(0, Operator::LowerThan(num("20.0")));
    assert_eq!(condition, expected);

    let condition = FilterCondition::from_str(&ctx, "id < 200").unwrap();
    let expected = FilterCondition::Operator(2, Operator::LowerThan(num("200.0")));
    assert_eq!(condition, expected);
}

#[test]
fn parentheses() {
    let ctx = context(&["channel", "timestamp"], &["channel", "timestamp"]);

    let condition = FilterCondition::from_str(
        &ctx,
        "channel = gotaga OR (timestamp 22 TO 44 AND channel != ponce)",
    )
    .unwrap();
    let expected = FilterCondition::Or(
        Box::new(FilterCondition::Operator(0, Operator::Equal(None, s("gotaga")))),
        Box::new(FilterCondition::And(
            Box::new(FilterCondition::Operator(1, Operator::Between(num("22.0"), num("44.0")))),
            Box::new(FilterCondition::Operator(0, Operator::NotEqual(None, s("ponce")))),
        )),
    );
    assert_eq!(condition, expected);

    let condition = FilterCondition::from_str(
        &ctx,
        "channel = gotaga OR NOT (timestamp 22 TO 44 AND channel != ponce)",
    )
    .unwrap();
    let expected = FilterCondition::Or(
        Box::new(FilterCondition::Operator(0, Operator::Equal(None, s("gotaga")))),
        Box::new(FilterCondition::Or(
            Box::new(FilterCondition::Or(
                Box::new(FilterCondition::Operator(1, Operator::LowerThan(num("22.0")))),
                Box::new(FilterCondition::Operator(1, Operator::GreaterThan(num("44.0")))),
            )),
            Box::new(FilterCondition::Operator(0, Operator::Equal(None, s("ponce")))),
        )),
    );
    assert_eq!(condition, expected);
}

#[test]
fn from_array() {
    let ctx = context(&["channel", "timestamp"], &["channel", "timestamp"]);

    // Simple array with an inner list
    let condition = FilterCondition::from_array(
        &ctx,
        vec![FilterFragment::AnyOf(vec![s("channel = mv")])],
    )
    .unwrap()
    .unwrap();
    let expected = FilterCondition::from_str(&ctx, "channel = mv").unwrap();
    assert_eq!(condition, expected);

    // Simple array with a single string
    let condition = FilterCondition::from_array(&ctx, vec![FilterFragment::Single(s(
        "channel = mv",
    ))])
    .unwrap()
    .unwrap();
    let expected = FilterCondition::from_str(&ctx, "channel = mv").unwrap();
    assert_eq!(condition, expected);

    // Array with an inner list and an escaped quote
    let condition = FilterCondition::from_array(
        &ctx,
        vec![FilterFragment::AnyOf(vec![s("channel = \"Mister Mv\"")])],
    )
    .unwrap()
    .unwrap();
    let expected = FilterCondition::from_str(&ctx, "channel = \"Mister Mv\"").unwrap();
    assert_eq!(condition, expected);

    // Array with a single string and an escaped quote
    let condition = FilterCondition::from_array(
        &ctx,
        vec![FilterFragment::Single(s("channel = \"Mister Mv\""))],
    )
    .unwrap()
    .unwrap();
    let expected = FilterCondition::from_str(&ctx, "channel = \"Mister Mv\"").unwrap();
    assert_eq!(condition, expected);

    // Array with an inner list and an escaped simple quote
    let condition = FilterCondition::from_array(
        &ctx,
        vec![FilterFragment::AnyOf(vec![s("channel = 'Mister Mv'")])],
    )
    .unwrap()
    .unwrap();
    let expected = FilterCondition::from_str(&ctx, "channel = 'Mister Mv'").unwrap();
    assert_eq!(condition, expected);

    // Array with a single string and an escaped simple quote
    let condition = FilterCondition::from_array(
        &ctx,
        vec![FilterFragment::Single(s("channel = 'Mister Mv'"))],
    )
    .unwrap()
    .unwrap();
    let expected = FilterCondition::from_str(&ctx, "channel = 'Mister Mv'").unwrap();
    assert_eq!(condition, expected);

    // Simple with parenthesis
    let condition = FilterCondition::from_array(
        &ctx,
        vec![FilterFragment::AnyOf(vec![s("(channel = mv)")])],
    )
    .unwrap()
    .unwrap();
    let expected = FilterCondition::from_str(&ctx, "(channel = mv)").unwrap();
    assert_eq!(condition, expected);

    // Test that the facet condition is correctly generated.
    let condition = FilterCondition::from_array(
        &ctx,
        vec![
            FilterFragment::Single(s("channel = gotaga")),
            FilterFragment::AnyOf(vec![s("timestamp = 44"), s("channel != ponce")]),
        ],
    )
    .unwrap()
    .unwrap();
    let expected = FilterCondition::from_str(
        &ctx,
        "channel = gotaga AND (timestamp = 44 OR channel != ponce)",
    )
    .unwrap();
    assert_eq!(condition, expected);
}

#[test]
fn geo_radius() {
    let ctx = context(&["_geo", "price"], &["_geo", "price"]);

    // basic test
    let condition = FilterCondition::from_str(&ctx, "_geoRadius(12, 13.0005, 2000)").unwrap();
    let expected =
        FilterCondition::Operator(0, Operator::GeoLowerThan(num("12."), num("13.0005"), num("2000.")));
    assert_eq!(condition, expected);

    // test the negation of the GeoLowerThan
    let condition = FilterCondition::from_str(&ctx, "NOT _geoRadius(50, 18, 2000.500)").unwrap();
    let expected =
        FilterCondition::Operator(0, Operator::GeoGreaterThan(num("50."), num("18."), num("2000.500")));
    assert_eq!(condition, expected);

    // composition of multiple operations
    let condition = FilterCondition::from_str(
        &ctx,
        "(NOT _geoRadius(1, 2, 300) AND _geoRadius(1.001, 2.002, 1000.300)) OR price <= 10",
    )
    .unwrap();
    let expected = FilterCondition::Or(
        Box::new(FilterCondition::And(
            Box::new(FilterCondition::Operator(
                0,
                Operator::GeoGreaterThan(num("1."), num("2."), num("300.")),
            )),
            Box::new(FilterCondition::Operator(
                0,
                Operator::GeoLowerThan(num("1.001"), num("2.002"), num("1000.300")),
            )),
        )),
        Box::new(FilterCondition::Operator(1, Operator::LowerThanOrEqual(num("10.")))),
    );
    assert_eq!(condition, expected);
}

#[test]
fn geo_radius_error() {
    let ctx = context(&["_geo", "price"], &["_geo", "price"]);

    // georadius don't have any parameters
    let result = FilterCondition::from_str(&ctx, "_geoRadius");
    assert!(result.is_err());
    let error = result.unwrap_err();
    assert!(error.message().contains("The `_geoRadius` filter expect three arguments: `_geoRadius(latitude, longitude, radius)`"));

    // georadius don't have any parameters
    let result = FilterCondition::from_str(&ctx, "_geoRadius()");
    assert!(result.is_err());
    let error = result.unwrap_err();
    assert!(error.message().contains("The `_geoRadius` filter expect three arguments: `_geoRadius(latitude, longitude, radius)`"));

    // georadius don't have enough parameters
    let result = FilterCondition::from_str(&ctx, "_geoRadius(1, 2)");
    assert!(result.is_err());
    let error = result.unwrap_err();
    assert!(error.message().contains("The `_geoRadius` filter expect three arguments: `_geoRadius(latitude, longitude, radius)`"));

    // georadius have too many parameters
    let result = FilterCondition::from_str(&ctx, "_geoRadius(1, 2, 3, 4, 5, 6, 7, 8, 9, 10)");
    assert!(result.is_err());
    let error = result.unwrap_err();
    assert!(error.message().contains("The `_geoRadius` filter expect three arguments: `_geoRadius(latitude, longitude, radius)`"));

    let result = FilterCondition::from_str(&ctx, "_geoRadius(-100, 150, 10)");
    assert!(result.is_err());
    let error = result.unwrap_err();
    assert!(
        error.message().contains("Latitude must be contained between -90 and 90 degrees."),
        "{}",
        error.message()
    );

    // georadius have a bad latitude
    let result = FilterCondition::from_str(&ctx, "_geoRadius(-90.0000001, 150, 10)");
    assert!(result.is_err());
    let error = result.unwrap_err();
    assert!(error.message().contains("Latitude must be contained between -90 and 90 degrees."));

    // georadius have a bad longitude
    let result = FilterCondition::from_str(&ctx, "_geoRadius(-10, 250, 10)");
    assert!(result.is_err());
    let error = result.unwrap_err();
    assert!(error.message().contains("Longitude must be contained between -180 and 180 degrees."));

    // georadius have a bad longitude
    let result = FilterCondition::from_str(&ctx, "_geoRadius(-10, 180.000001, 10)");
    assert!(result.is_err());
    let error = result.unwrap_err();
    assert!(error.message().contains("Longitude must be contained between -180 and 180 degrees."));
}
