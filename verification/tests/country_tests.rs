//! Tests for the country resolver.

use geo_rs::{Country, Parser};

fn united_states() -> Country {
    Country {
        code: "US".to_string(),
        name: "United States".to_string(),
    }
}

fn canada() -> Country {
    Country {
        code: "CA".to_string(),
        name: "Canada".to_string(),
    }
}

#[test]
fn test_ca() {
    let parser = Parser::new();
    assert!(parser.countries.name_of_code("CA").is_some());
}

#[test]
fn test_us() {
    let parser = Parser::new();
    assert!(parser.countries.name_of_code("US").is_some());
}

#[test]
fn test_country_display() {
    let country = Country {
        code: String::from(" US "),
        name: String::from("United States"),
    };
    assert_eq!(country.to_string(), "US");
}

#[test]
fn test_find_country() {
    let parser = Parser::new();
    let cases: Vec<(&str, Option<Country>)> = vec![
        ("Lansing, MI", None),
        ("Lansing, MI, US, 48911", Some(united_states())),
        ("Jacksonville, Florida, USA", Some(united_states())),
        ("manati, pr, us", Some(united_states())),
        (
            "United States-Alaska-Shemya/Eareckson Air Station",
            Some(united_states()),
        ),
        (
            "New Westminster, British Columbia, Canada",
            Some(canada()),
        ),
        ("Sherwood Park, AB, CA, T8A 3H9", Some(canada())),
        ("Los Angeles, CA", Some(united_states())),
        ("ON, CA", Some(canada())),
    ];
    for (input, expected) in cases {
        let country = parser.find_country(input);
        assert_eq!(country, expected, "{}", input);
    }
}

#[test]
fn country_test_remove_country() {
    let parser = Parser::new();
    let country = canada();
    let mut location = String::from("Sherwood Park, AB, CA");
    parser.remove_country(&country, &mut location);
    assert_eq!(location, String::from("Sherwood Park, AB"));
    let country = canada();
    let mut location = String::from("Toronto, ON, Canada");
    parser.remove_country(&country, &mut location);
    assert_eq!(location, String::from("Toronto, ON"));
    let country = united_states();
    let mut location = String::from("United States-California-San Diego-US CA San Diego");
    parser.remove_country(&country, &mut location);
    assert_eq!(location, String::from("California-San Diego-CA San Diego"));
    let country = united_states();
    let mut location = String::from("Lansing, MI, US");
    parser.remove_country(&country, &mut location);
    assert_eq!(location, String::from("Lansing, MI"));
    let country = Country {
        code: String::from("ES"),
        name: String::from("Spain"),
    };
    let mut location = String::from("Barcelona, ES");
    parser.remove_country(&country, &mut location);
    assert_eq!(location, String::from("Barcelona"));
}

#[test]
fn test_generic_fallback_by_name_and_code() {
    let parser = Parser::new();
    assert_eq!(
        parser.find_country("Barcelona, Spain"),
        Some(Country {
            code: "ES".to_string(),
            name: "Spain".to_string(),
        })
    );
    assert_eq!(
        parser.find_country("Barcelona, ES"),
        Some(Country {
            code: "ES".to_string(),
            name: "Spain".to_string(),
        })
    );
    // A country that collides with a state is never taken: PA is
    // Pennsylvania, not Panama, and Georgia stays the state name.
    assert_eq!(parser.find_country("Scranton, PA"), None);
    assert_eq!(parser.find_country("Atlanta, Georgia"), None);
}
