//! Tests for the state resolver.

use geo_rs::nodes::state::states_of;
use geo_rs::{Country, Location, Parser, State};

fn united_states() -> Country {
    Country {
        code: "US".to_string(),
        name: "United States".to_string(),
    }
}

fn canada() -> Country {
    Country {
        code: "CA".to_string(),
        name: "Canada".to_string(),
    }
}

#[test]
fn state_test_read_states() {
    let states = geo_rs::read_states();
    let us_states = states_of(&states, "US");
    assert!(us_states.is_some());
    let ca_states = states_of(&states, "CA");
    assert!(ca_states.is_some());
    assert_eq!(
        ca_states.unwrap().name_of_code("ON"),
        Some("Ontario".to_string())
    );
    assert_eq!(
        ca_states.unwrap().code_of_name("Ontario"),
        Some("ON".to_string())
    );
    assert_eq!(
        us_states.unwrap().name_of_code("CA"),
        Some("California".to_string())
    );
    assert_eq!(
        us_states.unwrap().code_of_name("California"),
        Some("CA".to_string())
    );
}

#[test]
fn state_test_ca_states() {
    let parser = Parser::new();
    assert!(states_of(&parser.states, "CA").is_some());
}

#[test]
fn state_test_us_states() {
    let parser = Parser::new();
    assert!(states_of(&parser.states, "US").is_some());
}

#[test]
fn state_test_state_display() {
    let state = State {
        code: String::from(" ON "),
        name: String::from("Ontario"),
    };
    assert_eq!(state.to_string(), "ON");
}

#[test]
fn test_find_state() {
    let parser = Parser::new();
    let cases: Vec<(&str, Option<State>)> = vec![
        (
            "Jacksonville, Florida, USA",
            Some(State {
                code: String::from("FL"),
                name: String::from("Florida"),
            }),
        ),
        (
            "Lansing, MI, US, 48911",
            Some(State {
                code: String::from("MI"),
                name: String::from("Michigan"),
            }),
        ),
        (
            "New Westminster, British Columbia, Canada",
            Some(State {
                code: String::from("BC"),
                name: String::from("British Columbia"),
            }),
        ),
        (
            "New York, NY, US",
            Some(State {
                code: String::from("NY"),
                name: String::from("New York"),
            }),
        ),
        (
            "United States-District of Columbia-washington-20340-DCCL",
            Some(State {
                code: String::from("DC"),
                name: String::from("District Of Columbia"),
            }),
        ),
    ];
    for (input, expected) in cases {
        let found = parser.find_state(input, &None).map(|x| x.0);
        assert_eq!(found, expected, "{}", input);
    }
}

#[test]
fn test_find_special_case_state() {
    let parser = Parser::new();
    let input = "United States-District of Columbia-washington-20340-DCCL";
    let (state, country) = parser.find_special_case_state(input).unwrap();
    assert_eq!(state.code, String::from("DC"));
    assert_eq!(country.code, String::from("US"));
    let input = "United States-washington d.c.-20340-DCCL";
    let (state, country) = parser.find_special_case_state(input).unwrap();
    assert_eq!(state.code, String::from("DC"));
    assert_eq!(country.code, String::from("US"));
}

#[test]
fn state_test_remove_state() {
    let parser = Parser::new();
    let state = State {
        code: String::from("AB"),
        name: String::from("Alberta"),
    };
    let mut location = String::from("Sherwood Park, AB, CA");
    parser.remove_state(&state, &canada(), &mut location);
    assert_eq!(location, String::from("Sherwood Park, CA"));
    let state = State {
        code: String::from("ON"),
        name: String::from("Ontario"),
    };
    let mut location = String::from("Toronto, ON, CA");
    parser.remove_state(&state, &canada(), &mut location);
    assert_eq!(location, String::from("Toronto, CA"));
    let state = State {
        code: String::from("CA"),
        name: String::from("California"),
    };
    let mut location = String::from("United States-San Diego-US CA San Diego");
    parser.remove_state(&state, &united_states(), &mut location);
    assert_eq!(location, String::from("United States-San Diego-US San Diego"));
    let state = State {
        code: String::from("CO"),
        name: String::from("Colorado"),
    };
    let mut location = String::from("Colorado Springs, CO, US");
    parser.remove_state(&state, &united_states(), &mut location);
    assert_eq!(location, String::from("Colorado Springs, US"));
    let state = State {
        code: String::from("NY"),
        name: String::from("New York"),
    };
    let mut location = String::from("New York, NY, US");
    parser.remove_state(&state, &united_states(), &mut location);
    assert_eq!(location, String::from("New York, US"));
    let state = State {
        code: String::from("DC"),
        name: String::from("District Of Columbia"),
    };
    let mut location = String::from("United States-District of Columbia-washington-20340-DCCL");
    parser.remove_state(&state, &united_states(), &mut location);
    assert_eq!(location, String::from("United States-washington-20340"));
}

#[test]
fn state_test_state_from_code() {
    let parser = Parser::new();
    let state_code = "CA";
    let country = Some(united_states());
    let state = parser.state_from_code(&country, state_code).unwrap();
    assert_eq!(state.code, String::from("CA"));
    assert_eq!(state.name, String::from("California"));
    let state_code = "BC";
    let country = None;
    let state = parser.state_from_code(&country, state_code).unwrap();
    assert_eq!(state.code, String::from("BC"));
    assert_eq!(state.name, String::from("British Columbia"));
}

#[test]
fn test_fill_country_from_state() {
    let parser = Parser::new();
    let mut location = Location::empty();
    location.state = Some(State {
        code: String::from("CA"),
        name: String::from("California"),
    });
    parser.fill_country_from_state(&mut location);
    assert_eq!(location.country.unwrap(), united_states());
    let mut location = Location::empty();
    location.state = Some(State {
        code: String::from("ON"),
        name: String::from("Ontario"),
    });
    parser.fill_country_from_state(&mut location);
    assert_eq!(location.country.unwrap(), canada());
}

#[test]
fn test_find_state_ambiguous_left_unset() {
    let parser = Parser::new();
    // Two competing state codes with no country known: ambiguous.
    assert!(parser.find_state("MI OR", &None).is_none());
    // A stray country-code lookalike is discarded: AB stays, CA goes.
    let (state, country) = parser.find_state("AB CA", &None).unwrap();
    assert_eq!(state.code, "AB".to_string());
    assert_eq!(country.code, "CA".to_string());
}
