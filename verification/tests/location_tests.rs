//! Tests for the composed location record, its rendering, and addresses.

use geo_rs::{Address, City, Country, Location, Parser, State, Zipcode};

#[test]
fn test_location_to_string() {
    let location = Location {
        city: Some(City {
            name: String::from("Toronto"),
            state: Some(String::from("ON")),
        }),
        state: Some(State {
            code: String::from("ON"),
            name: String::from("Ontario"),
        }),
        country: Some(Country {
            code: String::from("CA"),
            name: String::from("Canada"),
        }),
        zipcode: Some(Zipcode {
            zipcode: String::from("M4E3H8"),
        }),
        address: Some(Address {
            address: String::from("119 Yonge St"),
        }),
    };
    assert_eq!(location.to_string(), "Toronto, ON, CA, M4E3H8, 119 Yonge St");
}

#[test]
fn test_location_display() {
    let location = Location {
        city: Some(City {
            name: String::from("Toronto"),
            state: Some(String::from("ON")),
        }),
        state: Some(State {
            code: String::from("ON"),
            name: String::from("Ontario"),
        }),
        country: Some(Country {
            code: String::from("CA"),
            name: String::from("Canada"),
        }),
        zipcode: None,
        address: None,
    };
    assert_eq!(location.to_string(), "Toronto, ON, CA");
    let location = Location {
        city: Some(City {
            name: String::from("Toronto"),
            state: None,
        }),
        state: None,
        country: None,
        zipcode: None,
        address: None,
    };
    assert_eq!(location.to_string(), "Toronto");
    let location = Location {
        city: Some(City {
            name: String::from("Sausalito"),
            state: None,
        }),
        state: None,
        country: Some(Country {
            code: String::from("US"),
            name: String::from("United States"),
        }),
        zipcode: None,
        address: None,
    };
    assert_eq!(location.to_string(), "Sausalito, US");
    let location = Location {
        city: Some(City {
            name: String::from("Toronto"),
            state: None,
        }),
        state: None,
        country: None,
        zipcode: Some(Zipcode {
            zipcode: String::from("90E 717"),
        }),
        address: None,
    };
    assert_eq!(location.to_string(), "Toronto, 90E717");
}

#[test]
fn test_fmt_address() {
    let address = Address {
        address: String::from("test address  "),
    };
    assert_eq!(address.to_string(), String::from("test address"))
}

#[test]
fn test_find_address() {
    let parser = Parser::new();
    let address = parser.find_address("Kent Atholville 44");
    assert_eq!(
        address,
        Some(Address {
            address: String::from("Kent Atholville 44"),
        })
    );
}

#[test]
fn test_remove_address() {
    let parser = Parser::new();
    let address = Address {
        address: String::from("Kent Atholville 44"),
    };
    let mut input = String::from("Atholville, New Brunswick, Canada, Kent Atholville 44");
    parser.remove_address(&mut input, &address);
    assert_eq!(input, "Atholville, New Brunswick, Canada");
}

#[test]
fn test_decode_folds_accents() {
    let parser = Parser::new();
    let mut location = Location::empty();
    location.city = Some(City {
        name: String::from("Montréal"),
        state: Some(String::from("QC")),
    });
    location.state = Some(State {
        code: String::from("QC"),
        name: String::from("Québec"),
    });
    geo_rs::utils::decode(&mut location);
    assert_eq!(location.city.unwrap().name, "Montreal".to_string());
    assert_eq!(location.state.unwrap().name, "Quebec".to_string());
    let _ = parser;
}
