use extcore::naming::{op_ident, try_op_ident};

#[test]
fn qualified_path_yields_final_segment() {
    assert_eq!(op_ident("a::b::op_name"), "op_name");
    assert_eq!(op_ident("foo::bar::op_read"), "op_read");
}

#[test]
fn deeply_qualified_path() {
    assert_eq!(op_ident("a::b::c::d::op_deep"), "op_deep");
}

#[test]
fn bare_name_is_its_own_segment() {
    assert_eq!(op_ident("op_echo"), "op_echo");
}

#[test]
fn generic_suffix_is_stripped() {
    assert_eq!(op_ident("a::op_name::<T>"), "op_name");
    assert_eq!(op_ident("op_write::<u32>"), "op_write");
}

#[test]
fn generic_suffix_with_inner_separators() {
    // separators inside the generic list must not corrupt the split
    assert_eq!(op_ident("a::op_sum::<a::b::C>"), "op_sum");
}

#[test]
fn missing_marker_is_rejected() {
    assert!(try_op_ident("a::b::nope").is_none());
    assert!(try_op_ident("a::b::o").is_none());
    assert!(try_op_ident("x").is_none());
    assert!(try_op_ident("").is_none());
}

#[test]
fn marker_must_sit_on_final_segment() {
    // the prefix has the marker, the final segment does not
    assert!(try_op_ident("op_mod::helper").is_none());
}

#[test]
fn try_variant_agrees_on_valid_paths() {
    assert_eq!(try_op_ident("a::b::op_name"), Some("op_name"));
    assert_eq!(try_op_ident("a::op_gen::<Vec<u8>>"), Some("op_gen"));
}
