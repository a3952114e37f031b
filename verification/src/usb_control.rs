//! How the device answers control requests on endpoint 0: the vendor interface announces
//! itself to Windows as a WinUSB device, and the mass storage interface answers the two
//! requests of the bulk only transport.
use vstd::prelude::*;

verus! {

/// The type of a control request.
#[derive(Clone, Copy, Debug, PartialEq, Eq, Structural)]
pub enum RequestKind {
    Standard,
    Class,
    Vendor,
    Reserved,
}

/// The recipient of a control request.
#[derive(Clone, Copy, Debug, PartialEq, Eq, Structural)]
pub enum Recipient {
    Device,
    Interface,
    Endpoint,
    Other,
    Reserved,
}

/// The fields of a control request that the answers depend on.
#[derive(Clone, Copy, Debug, PartialEq, Eq, Structural)]
pub struct ControlRequest {
    pub request_type: RequestKind,
    pub recipient: Recipient,
    pub request: u8,
    pub value: u16,
    pub index: u16,
}

/// What to do with a control request that reads from the device.
#[derive(Clone, Debug, PartialEq, Eq)]
pub enum ControlInAction {
    /// Accept it and send these bytes.
    Accept(Vec<u8>),
    /// Stall it.
    Reject,
    /// Leave it to another class.
    Ignore,
}

/// What to do with a control request that writes to the device.
#[derive(Clone, Copy, Debug, PartialEq, Eq, Structural)]
pub enum ControlOutAction {
    Reject,
    Ignore,
}

/// The vendor code that Windows asks the compatible id descriptor with: ASCII `A`.
pub const WCID_VENDOR_CODE: u8 = 65;

/// The index of the compatible id descriptor.
pub const COMPATIBILITY_ID_DESCRIPTOR_INDEX: u16 = 4;

/// The index of the Microsoft OS string descriptor.
pub const WCID_OS_STRING_DESC_INDEX: u8 = 0xee;

/// Asks the maximum logical unit number of a mass storage device.
pub const REQ_GET_MAX_LUN: u8 = 0xfe;

/// Resets a bulk only mass storage device.
pub const REQ_BULK_ONLY_RESET: u8 = 0xff;

/// The Microsoft compatible id feature descriptor: version 1.0, index 4, one section for
/// interface 0 with the compatible id `WINUSB`.
pub open spec fn wcid_descriptor() -> Seq<u8> {
    seq![
        0x28u8, 0x00, 0x00, 0x00, 0x00, 0x01, 0x04, 0x00, 0x01, 0x00, 0x00, 0x00, 0x00, 0x00,
        0x00, 0x00, 0x00, 0x01, 0x57, 0x49, 0x4e, 0x55, 0x53, 0x42, 0x00, 0x00, 0x00, 0x00,
        0x00, 0x00, 0x00, 0x00, 0x00, 0x00, 0x00, 0x00, 0x00, 0x00, 0x00, 0x00,
    ]
}

fn wcid_descriptor_bytes() -> (r: Vec<u8>)
    ensures
        r@ == wcid_descriptor(),
{
    let r: Vec<u8> = vec![
        0x28u8, 0x00, 0x00, 0x00, 0x00, 0x01, 0x04, 0x00, 0x01, 0x00, 0x00, 0x00, 0x00, 0x00,
        0x00, 0x00, 0x00, 0x01, 0x57, 0x49, 0x4e, 0x55, 0x53, 0x42, 0x00, 0x00, 0x00, 0x00,
        0x00, 0x00, 0x00, 0x00, 0x00, 0x00, 0x00, 0x00, 0x00, 0x00, 0x00, 0x00,
    ];
    assert(r@ =~= wcid_descriptor());
    r
}

/// A class request to interface `data_if`.
pub open spec fn for_interface(req: ControlRequest, data_if: u8) -> bool {
    &&& req.request_type == RequestKind::Class
    &&& req.recipient == Recipient::Interface
    &&& req.index == data_if as u16
}

fn is_for_interface(req: &ControlRequest, data_if: u8) -> (r: bool)
    ensures
        r == for_interface(*req, data_if),
{
    req.request_type == RequestKind::Class && req.recipient == Recipient::Interface && req.index
        == data_if as u16
}

/// The vendor interface sends the compatible id descriptor to the vendor request that asks
/// for it, stalls class requests to itself, and leaves all others.
pub fn vendor_control_in(req: &ControlRequest, data_if: u8) -> (r: ControlInAction)
    ensures
        req.request_type == RequestKind::Vendor && req.recipient == Recipient::Device && req.index
            == COMPATIBILITY_ID_DESCRIPTOR_INDEX && req.request == WCID_VENDOR_CODE ==> (r matches ControlInAction::Accept(b) && b@ == wcid_descriptor()),
        !(req.request_type == RequestKind::Vendor && req.recipient == Recipient::Device && req.index
            == COMPATIBILITY_ID_DESCRIPTOR_INDEX && req.request == WCID_VENDOR_CODE) ==> r == if for_interface(*req, data_if) {
            ControlInAction::Reject
        } else {
            ControlInAction::Ignore
        },
{
    if req.request_type == RequestKind::Vendor && req.recipient == Recipient::Device && req.index
        == COMPATIBILITY_ID_DESCRIPTOR_INDEX && req.request == WCID_VENDOR_CODE {
        return ControlInAction::Accept(wcid_descriptor_bytes());
    }
    if is_for_interface(req, data_if) {
        ControlInAction::Reject
    } else {
        ControlInAction::Ignore
    }
}

/// Both interfaces stall the class requests to themselves that write to the device.
pub fn interface_control_out(req: &ControlRequest, data_if: u8) -> (r: ControlOutAction)
    ensures
        r == if for_interface(*req, data_if) {
            ControlOutAction::Reject
        } else {
            ControlOutAction::Ignore
        },
{
    if is_for_interface(req, data_if) {
        ControlOutAction::Reject
    } else {
        ControlOutAction::Ignore
    }
}

/// The Microsoft OS string descriptor `MSFT100A`, whose last letter is the vendor code.
pub fn vendor_string(index: u8) -> (r: Option<&'static str>)
    ensures
        index == WCID_OS_STRING_DESC_INDEX ==> r == Some("MSFT100A"),
        index != WCID_OS_STRING_DESC_INDEX ==> r is None,
{
    if index == WCID_OS_STRING_DESC_INDEX {
        Some("MSFT100A")
    } else {
        None
    }
}

/// The mass storage interface answers `GET_MAX_LUN` with the single logical unit 0 and
/// accepts a bulk only reset without data; it stalls its other class requests and leaves
/// all others.
pub fn msc_control_in(req: &ControlRequest, data_if: u8) -> (r: ControlInAction)
    ensures
        !for_interface(*req, data_if) ==> r == ControlInAction::Ignore,
        for_interface(*req, data_if) && req.request == REQ_GET_MAX_LUN ==> (r matches ControlInAction::Accept(b) && b@ == seq![0u8]),
        for_interface(*req, data_if) && req.request == REQ_BULK_ONLY_RESET ==> (r matches ControlInAction::Accept(b) && b@.len() == 0),
        for_interface(*req, data_if) && req.request != REQ_GET_MAX_LUN && req.request != REQ_BULK_ONLY_RESET ==> r == ControlInAction::Reject,
{
    if !is_for_interface(req, data_if) {
        return ControlInAction::Ignore;
    }
    if req.request == REQ_GET_MAX_LUN {
        let max_lun: Vec<u8> = vec![0u8];
        assert(max_lun@ =~= seq![0u8]);
        ControlInAction::Accept(max_lun)
    } else if req.request == REQ_BULK_ONLY_RESET {
        ControlInAction::Accept(Vec::new())
    } else {
        ControlInAction::Reject
    }
}

} // verus!
