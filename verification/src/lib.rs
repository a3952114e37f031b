//! Raw floppy track encoding and decoding: bit streams, MFM and GCR codecs,
//! flux pulse generation, disk image track generation and track parsing.

pub mod types;
mod bitfacts;
pub mod bitstream;
pub mod mfm;
pub mod mfm_sync;
pub mod gcr;
pub mod c64_geometry;
pub mod fluxpulse;
pub mod error;
pub mod image_adf;
pub mod image_d64;
pub mod image_iso;
pub mod image_dsk;
pub mod image_g64;
pub mod image_ipf;
pub mod crc;
pub mod track_parser;
pub mod sorting;
pub mod bytes;
pub mod digest;
pub mod image_stx;
pub mod usb_protocol;
pub mod rawtrack;
pub mod writability;
pub mod usb_answer;
pub mod vendor_class;
pub mod track_verify;
pub mod scsi;
pub mod drive_unit;
pub mod track_mfm;
pub mod drive_speed;
pub mod write_precomp;
pub mod session;
pub mod calibration;
pub mod iso_reader;
pub mod usb_control;
