use collab::relay::subscribe_authz_enabled;

#[test]
fn unset_enables_subscribe_authz() {
    assert!(subscribe_authz_enabled(None), "an unset env var must leave authz ON");
}

#[test]
fn only_explicit_falsey_values_disable_it() {
    for off in ["0", "false", "no", "off", "FALSE", "Off", "  no  "] {
        assert!(!subscribe_authz_enabled(Some(off)), "{off:?} must disable authz");
    }
}

#[test]
fn unrecognised_values_fail_closed_to_enabled() {
    for on in ["1", "true", "yes", "on", "TRUE", " On ", "", "maybe", "0.0", "disabled"] {
        assert!(subscribe_authz_enabled(Some(on)), "{on:?} must leave authz ON");
    }
}

#[test]
fn unicode_white_space_is_trimmed() {
    assert!(!subscribe_authz_enabled(Some("\u{3000}off\u{00A0}")));
    assert!(!subscribe_authz_enabled(Some("\tNo\n")));
    // Only ASCII letters are folded.
    assert!(subscribe_authz_enabled(Some("\u{0130}")));
}
