use srt_prep::ingestion::{PathError, SafeFilePath};

#[test]
fn test_valid_srt_path_is_accepted() {
    let p = SafeFilePath::from_checked("data/raw/episode-01.srt").unwrap();
    assert_eq!(p.as_str(), "data/raw/episode-01.srt");
    assert!(SafeFilePath::from_checked("a.b.srt").is_ok());
    assert!(SafeFilePath::from_checked("x.srt").is_ok());
}

#[test]
fn test_blank_path_is_rejected() {
    assert_eq!(SafeFilePath::from_checked("").unwrap_err(), PathError::EmptyPath);
    assert_eq!(SafeFilePath::from_checked("   ").unwrap_err(), PathError::EmptyPath);
}

#[test]
fn test_illegal_characters_are_rejected() {
    assert_eq!(
        SafeFilePath::from_checked("my file.srt").unwrap_err(),
        PathError::IllegalCharacters
    );
    assert_eq!(
        SafeFilePath::from_checked("episode_01.srt").unwrap_err(),
        PathError::IllegalCharacters
    );
}

#[test]
fn test_wrong_extension_is_rejected() {
    assert_eq!(
        SafeFilePath::from_checked("notes.txt").unwrap_err(),
        PathError::IncorrectExtension
    );
    assert_eq!(
        SafeFilePath::from_checked("srt").unwrap_err(),
        PathError::IncorrectExtension
    );
    // A hidden file named exactly `.srt` has no stem, hence no extension.
    assert_eq!(
        SafeFilePath::from_checked(".srt").unwrap_err(),
        PathError::IncorrectExtension
    );
    assert_eq!(
        SafeFilePath::from_checked("dir/.srt").unwrap_err(),
        PathError::IncorrectExtension
    );
    assert_eq!(
        SafeFilePath::from_checked("dir.srt/file").unwrap_err(),
        PathError::IncorrectExtension
    );
}

#[test]
fn test_path_error_messages() {
    assert_eq!(PathError::EmptyPath.message(), "File path is empty");
    assert_eq!(PathError::FileNotFound.message(), "File not found");
    assert_eq!(
        PathError::IncorrectExtension.message(),
        "File extension is not .srt"
    );
}
