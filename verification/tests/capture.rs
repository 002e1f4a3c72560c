use stella_app::capture::{CaptureCatalog, CaptureError, ResolvedTexture};

fn texture(source: &str, width: u32, height: u32, surface_format: u8) -> ResolvedTexture<u8> {
    ResolvedTexture {
        source: source.to_string(),
        width,
        height,
        surface_format,
    }
}

#[test]
fn a_created_image_is_captured_at_the_framebuffer_size() {
    let mut catalog: CaptureCatalog<u8> = CaptureCatalog::new();
    assert_eq!(catalog.len(), 0);
    let (captured, previous) = catalog
        .prepare_capture("<capture:CAP>", 8, 4, false, 2, None)
        .unwrap();
    assert_eq!(captured.source, "<capture-generation:1:<capture:CAP>>");
    assert_eq!((captured.width, captured.height, captured.surface_format), (8, 4, 2));
    assert_eq!(previous, None);
    assert_eq!(catalog.len(), 1);
    assert_eq!(
        catalog.binding("<capture:CAP>").unwrap().source,
        "<capture-generation:1:<capture:CAP>>"
    );
    assert_eq!(catalog.last_generation(), 1);
}

#[test]
fn a_second_capture_rebinds_and_reports_the_previous_generation() {
    let mut catalog: CaptureCatalog<u8> = CaptureCatalog::new();
    catalog.prepare_capture("<capture:CAP>", 8, 4, false, 2, None).unwrap();
    let (captured, previous) = catalog
        .prepare_capture("<capture:CAP>", 8, 4, false, 9, None)
        .unwrap();
    assert_eq!(captured.source, "<capture-generation:2:<capture:CAP>>");
    assert_eq!(captured.surface_format, 2);
    assert_eq!(previous.as_deref(), Some("<capture-generation:1:<capture:CAP>>"));
    assert_eq!(catalog.len(), 1);
    assert_eq!(
        catalog.binding("<capture:CAP>").unwrap().source,
        "<capture-generation:2:<capture:CAP>>"
    );
}

#[test]
fn a_temporary_capture_takes_a_generation_but_rebinds_nothing() {
    let mut catalog: CaptureCatalog<u8> = CaptureCatalog::new();
    catalog.prepare_capture("<capture:CAP>", 8, 4, false, 2, None).unwrap();
    let (captured, previous) = catalog
        .prepare_capture("<capture:CAP>", 8, 4, true, 2, None)
        .unwrap();
    assert_eq!(captured.source, "<capture-generation:2:<capture:CAP>>");
    assert_eq!(previous.as_deref(), Some("<capture-generation:1:<capture:CAP>>"));
    assert_eq!(
        catalog.binding("<capture:CAP>").unwrap().source,
        "<capture-generation:1:<capture:CAP>>"
    );
    let (fresh, previous) = catalog
        .prepare_capture("<capture:TMP>", 8, 4, true, 2, None)
        .unwrap();
    assert_eq!(fresh.source, "<capture-generation:3:<capture:TMP>>");
    assert_eq!(previous, None);
    assert!(catalog.binding("<capture:TMP>").is_none());
    assert_eq!(catalog.len(), 1);
}

#[test]
fn a_target_of_another_size_is_refused_without_a_generation() {
    let mut catalog: CaptureCatalog<u8> = CaptureCatalog::new();
    catalog.prepare_capture("<capture:CAP>", 8, 4, false, 2, None).unwrap();
    assert_eq!(
        catalog
            .prepare_capture("<capture:CAP>", 12, 4, false, 2, None)
            .err(),
        Some(CaptureError::WrongSize {
            width: 8,
            height: 4
        })
    );
    assert_eq!(catalog.last_generation(), 1);
}

#[test]
fn a_file_image_is_captured_with_its_own_format() {
    let mut catalog: CaptureCatalog<u8> = CaptureCatalog::new();
    assert_eq!(
        catalog
            .prepare_capture("sprites/sky.png", 8, 4, false, 2, None)
            .err(),
        Some(CaptureError::Unresolved)
    );
    let file = texture("sprites/sky.png", 8, 4, 7);
    let (captured, previous) = catalog
        .prepare_capture("sprites/sky.png", 8, 4, false, 2, Some(file))
        .unwrap();
    assert_eq!(captured.source, "<capture-generation:1:sprites/sky.png>");
    assert_eq!(captured.surface_format, 7);
    assert_eq!(previous, None);
    let resized = texture("sprites/sky.png", 16, 16, 7);
    assert_eq!(
        catalog
            .prepare_capture("sprites/other.png", 8, 4, false, 2, Some(resized))
            .err(),
        Some(CaptureError::WrongSize {
            width: 16,
            height: 16
        })
    );
}

#[test]
fn generations_count_in_decimal() {
    let mut catalog: CaptureCatalog<u8> = CaptureCatalog::new();
    let mut last = String::new();
    for _ in 0..12 {
        last = catalog
            .prepare_capture("<capture:A>", 1, 1, false, 0, None)
            .unwrap()
            .0
            .source;
    }
    assert_eq!(last, "<capture-generation:12:<capture:A>>");
}
