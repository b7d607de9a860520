//! Tests for the zipcode resolver.

use geo_rs::{Country, Location, Parser, Zipcode};

fn united_states() -> Country {
    Country {
        code: "US".to_string(),
        name: "United States".to_string(),
    }
}

fn canada() -> Country {
    Country {
        code: "CA".to_string(),
        name: "Canada".to_string(),
    }
}

fn get_zipcodes() -> Vec<(&'static str, Option<Zipcode>, Option<Country>)> {
    vec![
        ("Saint-Lin-Laurentides, QC J5MM 0G3", None, None),
        ("Saint-Lin-Laurentides, QC", None, None),
        ("Saint-Lin-Laurentides, QC 11111111", None, None),
        ("Lansing, MI, US", None, None),
        ("Lansing, MI, US, 67139037", None, None),
        (
            "Lansing, MI, US, 48911",
            Some(Zipcode {
                zipcode: String::from("48911"),
            }),
            Some(united_states()),
        ),
        (
            "Saint-Lin-Laurentides, QC J5M 0G3",
            Some(Zipcode {
                zipcode: String::from("J5M 0G3"),
            }),
            Some(canada()),
        ),
        (
            "Sherwood Park, AB, CA, T8A3H9",
            Some(Zipcode {
                zipcode: String::from("T8A3H9"),
            }),
            Some(canada()),
        ),
    ]
}

#[test]
fn zipcode_test_find_zipcode() {
    let parser = Parser::new();
    for (input, zipcode, country) in get_zipcodes() {
        let mut location = Location::empty();
        parser.find_zipcode(&mut location, input);
        assert_eq!(location.zipcode, zipcode, "input: {}", input);
        assert_eq!(location.country, country, "input: {}", input);
    }
}

#[test]
fn zipcode_test_remove_zipcode() {
    let parser = Parser::new();
    let zipcode = Zipcode {
        zipcode: String::from("T8A3H9"),
    };
    let mut location = String::from("Sherwood Park, AB, CA, T8A3H9");
    parser.remove_zipcode(&zipcode, &mut location);
    assert_eq!(location, String::from("Sherwood Park, AB, CA"));
    let zipcode = Zipcode {
        zipcode: String::from("J5M 0G3"),
    };
    let mut location = String::from("Montreal, QC J5M 0G3");
    parser.remove_zipcode(&zipcode, &mut location);
    assert_eq!(location, String::from("Montreal, QC"));
}

#[test]
fn zipcode_test_zipcode_display() {
    let zipcode = Zipcode {
        zipcode: String::from("J5M 0G3"),
    };
    assert_eq!(zipcode.to_string(), "J5M0G3");
}

#[test]
fn test_zip_length_guard_rejects_other_digit_runs() {
    let parser = Parser::new();
    for input in [
        "Lansing, MI, US, 67139037",
        "Lansing, MI, US, 1234",
        "Lansing, MI, US, 123456",
        "600778 Wilton, NY - Route 50",
    ] {
        let mut location = Location::empty();
        parser.find_zipcode(&mut location, input);
        assert_eq!(location.zipcode, None, "input: {}", input);
    }
}

#[test]
fn test_canadian_pattern_wins_over_us_pattern() {
    let parser = Parser::new();
    let mut location = Location::empty();
    parser.find_zipcode(&mut location, "K1A 0B1 90210");
    assert_eq!(
        location.zipcode,
        Some(Zipcode {
            zipcode: String::from("K1A 0B1"),
        })
    );
    assert_eq!(location.country, Some(canada()));
}

#[test]
fn test_nine_and_ten_digit_zip_tokens() {
    let parser = Parser::new();
    let mut location = Location::empty();
    parser.find_zipcode(&mut location, "Lansing, MI, 48911-1234");
    assert_eq!(
        location.zipcode,
        Some(Zipcode {
            zipcode: String::from("48911-1234"),
        })
    );
    assert_eq!(location.country, Some(united_states()));
}
