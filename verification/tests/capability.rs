use ast_interpreter::capability::Capability;
use ast_interpreter::field::FieldId;

#[test]
fn tags_follow_the_field() {
    let bn254 = FieldId::Bn254;
    let goldilocks = FieldId::Goldilocks;
    for tag in [
        Capability::UnsignedFits(64),
        Capability::UnsignedFits(128),
        Capability::SignedFits(64),
        Capability::FieldBitsAtLeast(254),
    ] {
        assert!(tag.holds(bn254), "{tag:?}");
        assert!(!tag.holds(goldilocks), "{tag:?}");
    }
    assert!(Capability::UnsignedFits(32).holds(goldilocks));
    assert!(Capability::SignedFits(32).holds(goldilocks));
    assert!(Capability::FieldBitsAtLeast(64).holds(goldilocks));
}

#[test]
fn the_widest_fitting_type_is_one_bit_below_the_modulus() {
    assert!(Capability::UnsignedFits(63).holds(FieldId::Goldilocks));
    assert!(Capability::UnsignedFits(253).holds(FieldId::Bn254));
    assert!(!Capability::UnsignedFits(254).holds(FieldId::Bn254));
    assert!(!Capability::FieldBitsAtLeast(65).holds(FieldId::Goldilocks));
}
