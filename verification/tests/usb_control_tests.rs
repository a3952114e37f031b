use floppytracer::usb_control::{
    interface_control_out, msc_control_in, vendor_control_in, vendor_string, ControlInAction, ControlOutAction,
    ControlRequest, Recipient, RequestKind,
};

fn request(request_type: RequestKind, recipient: Recipient, request: u8, index: u16) -> ControlRequest {
    ControlRequest { request_type, recipient, request, value: 0, index }
}

#[test]
fn vendor_interface_announces_winusb() {
    let wcid = request(RequestKind::Vendor, Recipient::Device, 65, 4);
    match vendor_control_in(&wcid, 0) {
        ControlInAction::Accept(bytes) => {
            assert_eq!(bytes.len(), 40);
            assert_eq!(bytes[0], 0x28);
            assert_eq!(&bytes[18..24], b"WINUSB");
        }
        _ => panic!("descriptor not sent"),
    }
    let own_class = request(RequestKind::Class, Recipient::Interface, 1, 0);
    assert_eq!(vendor_control_in(&own_class, 0), ControlInAction::Reject);
    let other_interface = request(RequestKind::Class, Recipient::Interface, 1, 1);
    assert_eq!(vendor_control_in(&other_interface, 0), ControlInAction::Ignore);
    let wrong_code = request(RequestKind::Vendor, Recipient::Device, 66, 4);
    assert_eq!(vendor_control_in(&wrong_code, 0), ControlInAction::Ignore);
    assert_eq!(interface_control_out(&own_class, 0), ControlOutAction::Reject);
    assert_eq!(interface_control_out(&other_interface, 0), ControlOutAction::Ignore);
    assert_eq!(vendor_string(0xee), Some("MSFT100A"));
    assert_eq!(vendor_string(1), None);
}

#[test]
fn mass_storage_control_requests() {
    let max_lun = request(RequestKind::Class, Recipient::Interface, 0xfe, 1);
    assert_eq!(msc_control_in(&max_lun, 1), ControlInAction::Accept(vec![0]));
    let reset = request(RequestKind::Class, Recipient::Interface, 0xff, 1);
    assert_eq!(msc_control_in(&reset, 1), ControlInAction::Accept(vec![]));
    let other = request(RequestKind::Class, Recipient::Interface, 0x20, 1);
    assert_eq!(msc_control_in(&other, 1), ControlInAction::Reject);
    assert_eq!(msc_control_in(&max_lun, 0), ControlInAction::Ignore);
    let vendor = request(RequestKind::Vendor, Recipient::Interface, 0xfe, 1);
    assert_eq!(msc_control_in(&vendor, 1), ControlInAction::Ignore);
}
