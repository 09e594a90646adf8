use circuit_ci_gui::bundles::{derive_net_bundles, net_bundle_label};

fn nets(names: &[&str]) -> Vec<String> {
    names.iter().map(|net| (*net).to_string()).collect()
}

#[test]
fn derives_dot_and_bracket_bus_bundles() {
    let bundles = derive_net_bundles(&nets(&[
        "PORT.RESET_RC",
        "PORT.SPARE",
        "DATA[0]",
        "DATA[1]",
        "lonely[0]",
    ]));
    assert!(bundles.iter().any(|bundle| {
        bundle.label == "PORT"
            && bundle.members == vec!["PORT.RESET_RC".to_string(), "PORT.SPARE".to_string()]
    }));
    assert!(bundles.iter().any(|bundle| {
        bundle.label == "DATA[]"
            && bundle.members == vec!["DATA[0]".to_string(), "DATA[1]".to_string()]
    }));
    assert!(!bundles.iter().any(|bundle| bundle.label == "lonely[]"));
}

#[test]
fn derives_common_interface_pair_bundles() {
    let bundles = derive_net_bundles(&nets(&[
        "robot_canh",
        "robot_canl",
        "I2C2_SCL",
        "I2C2_SDA",
        "usb_dp",
        "usb_dm",
        "rs485_servo_a",
        "rs485_servo_b",
    ]));
    for label in ["robot", "I2C2", "usb", "rs485_servo"] {
        assert!(
            bundles.iter().any(|bundle| bundle.label == label),
            "missing bundle {label}: {bundles:?}"
        );
    }
}

#[test]
fn skips_unstructured_scalar_names() {
    assert_eq!(net_bundle_label("GPIO1"), None);
    assert_eq!(net_bundle_label("STATUS_LED"), None);
    assert_eq!(net_bundle_label("MOTOR_A"), None);
}
