use cosmosguard::source::CaptureSource;

#[test]
fn known_codes_map_to_their_sources() {
    assert_eq!(CaptureSource::from(0), CaptureSource::Unset);
    assert_eq!(CaptureSource::from(1), CaptureSource::CreateNotify);
    assert_eq!(CaptureSource::from(2), CaptureSource::ImageLoad);
    assert_eq!(CaptureSource::from(3), CaptureSource::LocateFallback);
}

#[test]
fn other_codes_map_to_unknown() {
    assert_eq!(CaptureSource::from(4), CaptureSource::Unknown);
    assert_eq!(CaptureSource::from(9999), CaptureSource::Unknown);
    assert_eq!(CaptureSource::from(u32::MAX), CaptureSource::Unknown);
}

#[test]
fn canonical_codes() {
    assert_eq!(CaptureSource::Unset.code(), 0);
    assert_eq!(CaptureSource::CreateNotify.code(), 1);
    assert_eq!(CaptureSource::ImageLoad.code(), 2);
    assert_eq!(CaptureSource::LocateFallback.code(), 3);
    assert_eq!(CaptureSource::Unknown.code(), 9999);
}

#[test]
fn code_of_a_source_decodes_to_it() {
    for source in [
        CaptureSource::Unset,
        CaptureSource::CreateNotify,
        CaptureSource::ImageLoad,
        CaptureSource::LocateFallback,
        CaptureSource::Unknown,
    ] {
        assert_eq!(CaptureSource::from(source.code()), source);
        assert_eq!(source.is_known(), source != CaptureSource::Unknown);
    }
}

#[test]
fn sources_print_their_names() {
    assert_eq!(format!("{:?}", CaptureSource::CreateNotify), "CreateNotify");
    assert_eq!(format!("{:?}", CaptureSource::Unknown), "Unknown");
}
