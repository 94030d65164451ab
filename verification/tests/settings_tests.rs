use libra_manager::error::Error;
use libra_manager::settings::{
    encode_settings, parse_settings, resolve_load, LoadOutcome, Settings, SettingsLoader,
};

fn settings(name: &str, camera: &str) -> Settings {
    Settings {
        library_name: name.to_string(),
        camera_device_id: camera.to_string(),
    }
}

#[test]
fn defaults_are_librarie_and_no_camera() {
    let d = Settings::default();
    assert_eq!(d.library_name, "Librarie");
    assert_eq!(d.camera_device_id, "");
}

#[test]
fn encodes_the_two_line_document() {
    let doc = encode_settings(&settings("Librarie", ""));
    assert_eq!(doc, "libraryName = \"Librarie\"\ncameraDeviceId = \"\"\n");
    let doc = encode_settings(&settings("Biblioteca Mare", "cam-0"));
    assert_eq!(
        doc,
        "libraryName = \"Biblioteca Mare\"\ncameraDeviceId = \"cam-0\"\n"
    );
}

#[test]
fn escapes_quotes_and_backslashes() {
    let doc = encode_settings(&settings("A \"B\" \\ C", "x"));
    assert_eq!(
        doc,
        "libraryName = \"A \\\"B\\\" \\\\ C\"\ncameraDeviceId = \"x\"\n"
    );
    let back = parse_settings(&doc).unwrap();
    assert_eq!(back.library_name, "A \"B\" \\ C");
    assert_eq!(back.camera_device_id, "x");
}

#[test]
fn parse_inverts_encode() {
    let cases = [
        settings("Librarie", ""),
        settings("", ""),
        settings("O bibliotecă", "cam \"1\""),
        settings("\\", "\""),
    ];
    for s in cases {
        let doc = encode_settings(&s);
        let back = parse_settings(&doc).unwrap();
        assert_eq!(back, s);
    }
}

#[test]
fn malformed_documents_are_rejected() {
    assert!(parse_settings("").is_none());
    assert!(parse_settings("libraryName = \"A\"").is_none());
    assert!(parse_settings("libraryName = \"A\ncameraDeviceId = \"\"\n").is_none());
    assert!(parse_settings("cameraDeviceId = \"\"\nlibraryName = \"A\"\n").is_none());
    assert!(parse_settings("libraryName = \"A\\x\"\ncameraDeviceId = \"\"\n").is_none());
    assert!(parse_settings("libraryName = \"A\"\ncameraDeviceId = \"\"\nrest").is_none());
}

#[test]
fn first_load_returns_defaults_and_asks_to_persist() {
    // A fresh environment: no settings file yet.
    let (s, persist) = resolve_load(LoadOutcome::Missing).unwrap();
    assert_eq!(s.library_name, "Librarie");
    assert_eq!(s.camera_device_id, "");
    assert!(persist);
    // The persisted document read back on the second load.
    let doc = encode_settings(&s);
    let (again, persist) = resolve_load(LoadOutcome::Found(doc)).unwrap();
    assert_eq!(again, s);
    assert!(!persist);
}

#[test]
fn stored_values_come_back_unchanged() {
    let stored = settings("Biblioteca Centrala", "cam-2");
    let doc = encode_settings(&stored);
    let (s, persist) = resolve_load(LoadOutcome::Found(doc)).unwrap();
    assert_eq!(s, stored);
    assert!(!persist);
}

#[test]
fn load_failures_keep_their_nature() {
    assert!(matches!(
        resolve_load(LoadOutcome::Found("nu e un document".to_string())),
        Err(Error::Serialization)
    ));
    assert!(matches!(
        resolve_load(LoadOutcome::Failed("disc indisponibil".to_string())),
        Err(Error::Io(_))
    ));
}

#[test]
fn loader_points_at_the_settings_file() {
    let loader = SettingsLoader::from(&"/data/app".to_string());
    assert_eq!(loader.path(), "/data/app/settings.toml");
}
