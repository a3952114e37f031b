# floppytracer

Raw floppy track writing and reading for the STM32 USB floppy tracer, with the track
codecs, disk image readers, USB protocol and device logic verified with Verus.

- `src/` is the verified library:
  - codecs: `bitstream`, `mfm`, `mfm_sync` (the MFM sync detector), `gcr`, `fluxpulse`
    (cells to flux pulses and back);
  - disk images: `image_adf`, `image_d64`, `image_dsk`, `image_g64`, `image_ipf`,
    `image_iso`, `image_stx`, with `rawtrack` for the raw tracks they produce and
    `writability` for the check that a drive can write them;
  - reading tracks back: `track_parser` with its Amiga, C64 and ISO readers, and
    `track_parser::iso_readback`, which shows that the ISO reader gives back what the ISO
    generator wrote;
  - the USB protocol between host and device: `usb_protocol`, `usb_answer`, `session`,
    `calibration`, `write_precomp`, `drive_speed`;
  - the device side: `vendor_class`, `usb_control`, `track_verify`, `track_mfm`,
    `drive_unit`, `scsi`, `iso_reader`.
- `app/` is the command line tool around the library: USB transfers with rusb, files,
  and the timing computed with floating point numbers.
- `tests/` holds the tests of the library.
