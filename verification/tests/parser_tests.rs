//! End-to-end tests of the full resolution pipeline.

use geo_rs::{City, Country, Location, Parser, State, Zipcode};

fn united_states() -> Country {
    Country {
        code: "US".to_string(),
        name: "United States".to_string(),
    }
}

fn canada() -> Country {
    Country {
        code: "CA".to_string(),
        name: "Canada".to_string(),
    }
}

#[test]
fn lib_test_can_create_parser() {
    Parser::new();
}

#[test]
fn lib_test_format_location() {
    let locations: Vec<(&str, &str)> = vec![
        ("BUFFALO,New York,United States", "Buffalo, NY, US"),
        ("US-DE-Wilmington", "Wilmington, DE, US"),
        ("Lansing, MI, US, 48911", "Lansing, MI, US, 48911"),
        ("Colleretto Giacosa", ""),
        ("Mercer Island, WA", "Mercer Island, WA, US"),
        ("Lees Summit, Missouri", "Lees Summit, MO, US"),
        (
            "BULLHEAD CITY FORT MOHAVE, Arizona, 86426",
            "Bullhead City, AZ, US, 86426",
        ),
        ("Manati, PR, US", "Manati, PR, US"),
        (
            "OR, Beaverton, 3485 SW Ceder Hills BLVD Ste 170",
            "Beaverton, OR, US",
        ),
        ("15 McKenna Rd  Arden, North Carolina", "Arden, NC, US"),
        (
            "Atholville, New Brunswick, Canada, Kent Atholville 44",
            "Atholville, NB, CA",
        ),
        ("Jacksonville, Florida, USA", "Jacksonville, FL, US"),
        ("CA, Cupertino - Stevens Creek", "Cupertino, CA, US"),
        (
            "Saint-Lin-Laurentides, QC J5M 0G3",
            "Saint-Lin-Laurentides, QC, CA, J5M0G3",
        ),
        ("VA-Christiansburg-24073", "Christiansburg, VA, US, 24073"),
        (
            "Colorado Springs, CO, 80907, US",
            "Colorado Springs, CO, US, 80907",
        ),
        (
            "B - USA - FL - JACKSONVILLE - 9985 PRITCHARD RD",
            "Jacksonville, FL, US",
        ),
        ("Kelowna, BC, CA V1Z 2S9", "Kelowna, BC, CA, V1Z2S9"),
        ("410 - Wichita  - Kansas", "Wichita, KS, US"),
        (
            "United States-California-San Diego-US CA San Diego - W. Brdway",
            "San Diego, CA, US",
        ),
        (
            "CA-ON-Oakville-3235 Dundas St W (Store# 04278)",
            "Oakville, ON, CA",
        ),
        ("600778 Wilton, NY - Route 50", "Wilton, NY, US"),
        (
            "Toronto (Toronto Eaton Center (ON)), ON, Canada",
            "Toronto, ON, CA",
        ),
        (
            "United States-Alaska-Shemya/Eareckson Air Station",
            "AK, US",
        ),
        (
            "United States-District of Columbia-washington-20340-DCCL",
            "Washington, DC, US, 20340",
        ),
        (
            "New Westminster, British Columbia, Canada",
            "New Westminster, BC, CA",
        ),
        ("MI-Commerce Township", "Commerce Township, MI, US"),
        ("Sherwood Park, AB, CA, T8A 3H9", "Sherwood Park, AB, CA, T8A3H9"),
    ];
    let parser = Parser::new();
    for (input, expected) in locations {
        let output = parser.parse_location(input);
        assert_eq!(output.to_string(), expected.to_string(), "input: {}", input);
    }
}

#[test]
fn lib_test_parse_location() {
    let parser = Parser::new();
    let cases: Vec<(&str, Location)> = vec![
        (
            "Lansing, MI, US, 48911",
            Location {
                city: Some(City {
                    name: String::from("Lansing"),
                    state: Some(String::from("MI")),
                }),
                state: Some(State {
                    code: String::from("MI"),
                    name: String::from("Michigan"),
                }),
                country: Some(united_states()),
                zipcode: Some(Zipcode {
                    zipcode: String::from("48911"),
                }),
                address: None,
            },
        ),
        (
            "Toronto, ON, CA, 48911",
            Location {
                city: Some(City {
                    name: String::from("Toronto"),
                    state: Some(String::from("ON")),
                }),
                state: Some(State {
                    code: String::from("ON"),
                    name: String::from("Ontario"),
                }),
                country: Some(canada()),
                zipcode: None,
                address: None,
            },
        ),
        (
            "Lansing, US",
            Location {
                city: None,
                state: None,
                country: Some(united_states()),
                zipcode: None,
                address: None,
            },
        ),
    ];
    for (input, expected) in cases {
        let location = parser.parse_location(input);
        assert_eq!(location, expected, "{}", input);
    }
}

#[test]
fn test_scenario_buffalo() {
    let parser = Parser::new();
    let location = parser.parse_location("BUFFALO, New York, US");
    assert_eq!(location.city.as_ref().unwrap().name, "Buffalo".to_string());
    assert_eq!(
        location.state,
        Some(State {
            code: "NY".to_string(),
            name: "New York".to_string(),
        })
    );
    assert_eq!(location.country, Some(united_states()));
    assert_eq!(location.zipcode, None);
    assert_eq!(location.to_string(), "Buffalo, NY, US");
}

#[test]
fn test_scenario_toronto() {
    let parser = Parser::new();
    let location = parser.parse_location("Toronto, ON, CA");
    assert_eq!(location.city.as_ref().unwrap().name, "Toronto".to_string());
    assert_eq!(location.state.as_ref().unwrap().code, "ON".to_string());
    assert_eq!(
        location.state.as_ref().unwrap().name,
        "Ontario".to_string()
    );
    assert_eq!(location.country, Some(canada()));
    assert_eq!(location.to_string(), "Toronto, ON, CA");
}

#[test]
fn test_scenario_saint_lin_laurentides() {
    let parser = Parser::new();
    let location = parser.parse_location("Saint-Lin-Laurentides, QC J5M 0G3");
    assert_eq!(
        location.city.as_ref().unwrap().name,
        "Saint-Lin-Laurentides".to_string()
    );
    assert_eq!(location.state.as_ref().unwrap().code, "QC".to_string());
    assert_eq!(location.country, Some(canada()));
    assert_eq!(
        location.zipcode,
        Some(Zipcode {
            zipcode: "J5M 0G3".to_string(),
        })
    );
    assert_eq!(
        location.to_string(),
        "Saint-Lin-Laurentides, QC, CA, J5M0G3"
    );
}

#[test]
fn test_scenario_washington_dc() {
    let parser = Parser::new();
    let location =
        parser.parse_location("United States-District of Columbia-washington-20340-DCCL");
    assert_eq!(
        location.city.as_ref().unwrap().name,
        "Washington".to_string()
    );
    assert_eq!(location.state.as_ref().unwrap().code, "DC".to_string());
    assert_eq!(location.country, Some(united_states()));
    assert_eq!(
        location.zipcode,
        Some(Zipcode {
            zipcode: "20340".to_string(),
        })
    );
    assert_eq!(location.to_string(), "Washington, DC, US, 20340");
}

#[test]
fn test_no_country_fabricated() {
    // Inputs with no country-like token resolve to no country at all.
    let parser = Parser::new();
    for input in ["Colleretto Giacosa", "some street 12", ""] {
        let location = parser.parse_location(input);
        assert_eq!(location.country, None, "input: {}", input);
    }
}

#[test]
fn test_parse_location_repeated_calls_agree() {
    let parser = Parser::new();
    for input in [
        "Toronto, ON, CA",
        "Lansing, MI, US, 48911",
        "Colleretto Giacosa",
        "United States-District of Columbia-washington-20340-DCCL",
    ] {
        let first = parser.parse_location(input);
        let second = parser.parse_location(input);
        assert_eq!(first, second, "input: {}", input);
    }
}
