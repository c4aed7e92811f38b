use custos::UnifiedToggle;

#[test]
fn toggle_reads_its_three_words() {
    assert_eq!(UnifiedToggle::from_bytes(b"default"), Some(UnifiedToggle::Default));
    assert_eq!(UnifiedToggle::from_bytes(b"DEFAULT"), Some(UnifiedToggle::Default));
    assert_eq!(UnifiedToggle::from_bytes(b"DeFauLt"), Some(UnifiedToggle::Default));
    assert_eq!(UnifiedToggle::from_bytes(b"true"), Some(UnifiedToggle::Forced(true)));
    assert_eq!(UnifiedToggle::from_bytes(b"false"), Some(UnifiedToggle::Forced(false)));
}

#[test]
fn toggle_refuses_everything_else() {
    assert_eq!(UnifiedToggle::from_bytes(b""), None);
    assert_eq!(UnifiedToggle::from_bytes(b"True"), None);
    assert_eq!(UnifiedToggle::from_bytes(b"FALSE"), None);
    assert_eq!(UnifiedToggle::from_bytes(b"defaults"), None);
    assert_eq!(UnifiedToggle::from_bytes(b"defaul"), None);
    assert_eq!(UnifiedToggle::from_bytes(b"1"), None);
    assert_eq!(UnifiedToggle::from_bytes(b"d\x05fault"), None);
    assert_eq!(UnifiedToggle::from_bytes(b"DEFAULT\x14"), None);
    assert_eq!(UnifiedToggle::from_bytes(b"tru\x45"), None);
}

#[test]
fn toggle_overrides_the_device() {
    assert!(UnifiedToggle::Default.resolve(true));
    assert!(!UnifiedToggle::Default.resolve(false));
    assert!(UnifiedToggle::Forced(true).resolve(false));
    assert!(!UnifiedToggle::Forced(false).resolve(true));
}
