use openzeppelin_macros::utils::{camel_to_snake, tabs};

#[test]
fn camel_to_snake_converts_event_names() {
    assert_eq!(
        camel_to_snake("DefaultAdminTransferScheduled"),
        "default_admin_transfer_scheduled"
    );
    assert_eq!(camel_to_snake("Transfer"), "transfer");
    assert_eq!(camel_to_snake("camelCase"), "camel_case");
}

#[test]
fn camel_to_snake_keeps_names_without_uppercase() {
    assert_eq!(camel_to_snake("already_snake"), "already_snake");
    assert_eq!(camel_to_snake(""), "");
    assert_eq!(camel_to_snake("x1"), "x1");
}

#[test]
fn camel_to_snake_puts_no_underscore_first() {
    assert_eq!(camel_to_snake("Bar"), "bar");
    assert!(!camel_to_snake("FundsReleased").starts_with('_'));
}

#[test]
fn tabs_repeats_four_spaces() {
    assert_eq!(tabs(0), "");
    assert_eq!(tabs(1), "    ");
    assert_eq!(tabs(2), "        ");
}
