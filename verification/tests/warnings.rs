use medulla::cache::{check_thresholds, CacheStats, ThresholdWarning, ENTITY_WARNING_THRESHOLD, LORO_SIZE_WARNING_THRESHOLD};

fn mock_stats(entity_count: usize) -> CacheStats {
    CacheStats {
        entity_count,
        embedding_count: 0,
        decisions: 0,
        tasks: 0,
        notes: 0,
        prompts: 0,
        components: 0,
        links: 0,
        relations: 0,
    }
}

#[test]
fn test_no_warnings_under_threshold() {
    let stats = mock_stats(500);
    let warnings = check_thresholds(&stats, 5 * 1024 * 1024);
    assert!(warnings.is_empty());
}

#[test]
fn test_high_entity_count_warning() {
    let stats = mock_stats(1500);
    let warnings = check_thresholds(&stats, 0);
    assert_eq!(warnings.len(), 1);
    match &warnings[0] {
        ThresholdWarning::HighEntityCount { count, threshold } => {
            assert_eq!(*count, 1500);
            assert_eq!(*threshold, ENTITY_WARNING_THRESHOLD);
        }
        _ => panic!("Expected HighEntityCount warning"),
    }
}

#[test]
fn test_large_loro_db_warning() {
    let stats = mock_stats(100);
    let warnings = check_thresholds(&stats, 15 * 1024 * 1024);
    assert_eq!(warnings.len(), 1);
    match &warnings[0] {
        ThresholdWarning::LargeLoroDb { size_bytes, .. } => {
            let size_mb = *size_bytes as f64 / (1024.0 * 1024.0);
            assert!(size_mb > 14.0 && size_mb < 16.0);
        }
        _ => panic!("Expected LargeLoroDb warning"),
    }
}

#[test]
fn test_multiple_warnings() {
    let stats = mock_stats(2000);
    let warnings = check_thresholds(&stats, 20 * 1024 * 1024);
    assert_eq!(warnings.len(), 2);
}

#[test]
fn thresholds_are_strict_and_ordered() {
    assert!(check_thresholds(&mock_stats(1000), LORO_SIZE_WARNING_THRESHOLD).is_empty());
    let w = check_thresholds(&mock_stats(1001), LORO_SIZE_WARNING_THRESHOLD + 1);
    assert_eq!(
        w,
        vec![
            ThresholdWarning::HighEntityCount { count: 1001, threshold: 1000 },
            ThresholdWarning::LargeLoroDb { size_bytes: 10 * 1024 * 1024 + 1, threshold_bytes: 10 * 1024 * 1024 },
        ]
    );
}
