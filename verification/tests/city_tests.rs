//! Tests for the city resolver and its tables.

use geo_rs::nodes::city::cities_of_country;
use geo_rs::{City, Country, Location, Parser, State};

fn united_states() -> Country {
    Country {
        code: "US".to_string(),
        name: "United States".to_string(),
    }
}

fn canada() -> Country {
    Country {
        code: "CA".to_string(),
        name: "Canada".to_string(),
    }
}

fn key(code: &str) -> Vec<char> {
    code.chars().collect()
}

#[test]
fn city_test_read_cities() {
    let cities = geo_rs::read_cities();
    let us_cities = cities_of_country(&cities, "US");
    assert!(us_cities.is_some());
    let ca_cities = cities_of_country(&cities, "CA");
    assert!(ca_cities.is_some());
    assert!(us_cities.unwrap().state_of("New York").is_some());
    assert!(ca_cities.unwrap().cities_of(&key("ON")).is_some());
    assert!(ca_cities.unwrap().state_of("Toronto").is_some());
    let ca_state_cities = ca_cities.unwrap().cities_of(&key("ON")).unwrap();
    assert!(ca_state_cities.contains(&"toronto".to_string()));
    let us_state_cities = us_cities.unwrap().cities_of(&key("NY")).unwrap();
    assert!(us_state_cities.contains(&"new york".to_string()));
}

#[test]
fn test_california_cities() {
    let parser = Parser::new();
    let us_cities = cities_of_country(&parser.cities, "US").unwrap();
    assert!(us_cities.cities_of(&key("CA")).is_some());
}

#[test]
fn test_fill_special_case_city() {
    let parser = Parser::new();
    let mut location = Location::empty();
    for input in [
        "United States-District of Columbia-washington-20340-DCCL",
        "United States-washington d.c.-20340-DCCL",
    ] {
        parser.fill_special_case_city(&mut location, input);
        assert_eq!(
            location.city,
            Some(City {
                name: String::from("Washington"),
                state: Some(String::from("DC")),
            })
        );
    }
}

#[test]
fn test_find_special_case_city() {
    let parser = Parser::new();
    for input in [
        "United States-District of Columbia-washington-20340-DCCL",
        "United States-washington d.c.-20340-DCCL",
    ] {
        let city = parser.find_special_case_city(input);
        assert_eq!(
            city,
            Some(City {
                name: String::from("Washington"),
                state: Some(String::from("DC")),
            })
        );
    }
}

#[test]
fn test_find_city() {
    let parser = Parser::new();
    let cases: Vec<(&str, State, Option<Country>, Option<City>)> = vec![
        (
            "United States-District of Columbia-washington-20340-DCCL",
            State {
                code: String::from("DC"),
                name: String::from("District of Columbia"),
            },
            Some(united_states()),
            Some(City {
                name: String::from("Washington"),
                state: Some(String::from("DC")),
            }),
        ),
        (
            "Jacksonville, Florida, USA",
            State {
                code: String::from("FL"),
                name: String::from("Florida"),
            },
            Some(united_states()),
            Some(City {
                name: String::from("Jacksonville"),
                state: Some(String::from("FL")),
            }),
        ),
        (
            "New Westminster, British Columbia, Canada",
            State {
                code: String::from("BC"),
                name: String::from("British Columbia"),
            },
            Some(canada()),
            Some(City {
                name: String::from("New Westminster"),
                state: Some(String::from("BC")),
            }),
        ),
        (
            "New Westminster, British Columbia, Canada",
            State {
                code: String::from("ON"),
                name: String::from("Ontario"),
            },
            Some(canada()),
            None,
        ),
    ];
    for (input, state, country, expected) in cases {
        let city = parser.find_city(input, &state, &country);
        assert_eq!(city, expected, "{}", input);
    }
}

#[test]
fn city_test_remove_city() {
    let parser = Parser::new();
    let cases: Vec<(&str, City, &str)> = vec![
        (
            "Lansing, MI, US, 48911",
            City {
                name: String::from("Lansing"),
                state: Some(String::from("MI")),
            },
            "MI, US, 48911",
        ),
        (
            "Toronto, ON, Canada",
            City {
                name: String::from("Toronto"),
                state: Some(String::from("ON")),
            },
            "ON, Canada",
        ),
        (
            "United States-California-San Diego-US CA San Diego",
            City {
                name: String::from("San Diego"),
                state: Some(String::from("CA")),
            },
            "United States-California-US CA",
        ),
    ];
    for (input, city, expected) in cases {
        let mut s = input.to_string();
        parser.remove_city(&mut s, &city);
        assert_eq!(s, expected, "{}", input);
    }
}

#[test]
fn test_find_city_titlecases_the_stored_name() {
    // The gazetteer stores names lower-cased for matching; a found city must
    // come back in display casing, hyphenated parts included.
    let parser = Parser::new();
    let state = State {
        code: String::from("QC"),
        name: String::from("Quebec"),
    };
    let city = parser
        .find_city("saint-lin-laurentides, qc", &state, &Some(canada()))
        .unwrap();
    assert_eq!(city.name, "Saint-Lin-Laurentides".to_string());
}
