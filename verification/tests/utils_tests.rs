//! Tests for the normalizer and the shared helpers.

use geo_rs::utils::{clean, get_countries, split};
use geo_rs::Country;

#[test]
fn utils_test_clean() {
    let mut s = "BULLHEAD CITY FORT MOHAVE, Arizona, 86426".to_string();
    clean(&mut s);
    assert_eq!(s, "BULLHEAD CITY FORT MOHAVE, Arizona, 86426".to_string());
    let mut s = "Ft. Meade, MD, US".to_string();
    clean(&mut s);
    assert_eq!(s, "Fort Meade, MD, US".to_string());
    let mut s = "Cupertino - Stevens Creek".to_string();
    clean(&mut s);
    assert_eq!(s, "Cupertino - Stevens Creek".to_string());
    let mut s = "canada,".to_string();
    clean(&mut s);
    assert_eq!(s, "canada".to_string());
    s = "!--?(invalid 123)Toronto/".to_string();
    clean(&mut s);
    assert_eq!(s, "Toronto".to_string());
    let mut s = "Dundas St W (Store# 04278)".to_string();
    clean(&mut s);
    assert_eq!(s, "Dundas St W".to_string());
    let mut s = "United States-District of Columbia-washington-20340-DCCL".to_string();
    clean(&mut s);
    assert_eq!(
        s,
        "United States-District of Columbia-washington-20340".to_string()
    );
    let mut s = "Canton, MA, Canton, MA, US".to_string();
    clean(&mut s);
    assert_eq!(s, "Canton, MA, US".to_string());
    let mut s = "Canton,MA,Canton,MA,US".to_string();
    clean(&mut s);
    assert_eq!(s, "Canton, MA, US".to_string());
    let mut s = "FT. BELVOIR, VA, US, 22060, FT. BELVOIR".to_string();
    clean(&mut s);
    assert_eq!(s, "FORT BELVOIR, VA, US, 22060".to_string());
}

#[test]
fn utils_test_split() {
    let s = "s - s !! test";
    let parts = split(&s);
    assert_eq!(
        parts,
        vec!["s".to_string(), "s".to_string(), "test".to_string()]
    )
}

#[test]
fn utils_test_get_countries() {
    let countries = get_countries(&None);
    assert_eq!(countries.len(), 2);
    assert_eq!(countries[0].code, "US".to_string());
    assert_eq!(countries[1].code, "CA".to_string());
    let countries = get_countries(&Some(Country {
        code: "US".to_string(),
        name: "United States".to_string(),
    }));
    assert_eq!(countries.len(), 1);
    assert_eq!(countries[0].code, "US".to_string());
    let countries = get_countries(&Some(Country {
        code: "CA".to_string(),
        name: "Canada".to_string(),
    }));
    assert_eq!(countries.len(), 1);
    assert_eq!(countries[0].code, "CA".to_string());
}

#[test]
fn test_clean_keeps_unicode_letters() {
    let mut s = "héllo € wörld".to_string();
    clean(&mut s);
    assert_eq!(s, "héllo , wörld".to_string());
}

#[test]
fn test_clean_collapses_whitespace() {
    let mut s = "a\tb\n c".to_string();
    clean(&mut s);
    assert_eq!(s, "a b c".to_string());
}

#[test]
fn test_clean_applied_twice() {
    for raw in [
        "Toronto",
        "Dundas St W",
        "canada,",
        "!--?(invalid 123)Toronto/",
        "Canton,MA,Canton,MA,US",
        "BULLHEAD CITY FORT MOHAVE, Arizona, 86426",
        "Mercer Island",
    ] {
        let mut once = raw.to_string();
        clean(&mut once);
        let mut twice = once.clone();
        clean(&mut twice);
        assert_eq!(twice, once, "input: {}", raw);
    }
}

#[test]
fn test_split_unicode() {
    let parts = split("a€b");
    assert_eq!(parts, vec!["a".to_string(), "b".to_string()]);
}
