use vefem::material::StandardConcrete;
use vefem::reinforcement::utils::{split_distribution_string, SpacingToken};

#[test]
fn standard_concrete_strengths() {
    assert_eq!(StandardConcrete::C12_15.char_strength(), 12);
    assert_eq!(StandardConcrete::C30_37.char_strength(), 30);
    assert_eq!(StandardConcrete::C55_67.char_strength(), 55);
    assert_eq!(StandardConcrete::C90_105.char_strength(), 90);
}

#[test]
fn distribution_string_tokens() {
    let single = |s: &str| SpacingToken::Single(s.to_string());
    let repeat = |n: &str, v: &str| SpacingToken::Repeat(n.to_string(), v.to_string());
    assert_eq!(split_distribution_string("5*60"), vec![repeat("5", "60")]);
    assert_eq!(
        split_distribution_string("30 5*60 anc*123 30"),
        vec![single("30"), repeat("5", "60"), repeat("anc", "123"), single("30")]
    );
    assert_eq!(
        split_distribution_string("30+d/2  2*3*4"),
        vec![single("30+d/2"), single(""), repeat("2", "3")]
    );
}
