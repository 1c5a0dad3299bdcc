use transport_core::errors::AudioError;
use transport_core::memory::{lru_capacity, prune_plan, ring_capacity};
use transport_core::text::{str_eq, str_eq_ignore_ascii_case};

#[test]
fn lru_capacity_divides_the_budget() {
    assert_eq!(lru_capacity(1), 1024 * 1024 / 1636);
    assert_eq!(lru_capacity(100), 100 * 1024 * 1024 / 1636);
    assert_eq!(lru_capacity(0), 100);
}

#[test]
fn prune_plan_prunes_only_a_nearly_full_cache() {
    assert_eq!(prune_plan(95, 100), (10, 15_000));
    assert_eq!(prune_plan(91, 100), (10, 15_000));
    assert_eq!(prune_plan(90, 100), (0, 0));
    assert_eq!(prune_plan(0, 100), (0, 0));
}

#[test]
fn ring_capacity_holds_ten_chunks() {
    assert_eq!(ring_capacity(16_000, 50), 8_000);
    assert_eq!(ring_capacity(48_000, 20), 9_600);
    assert_eq!(ring_capacity(16_000, 0), 0);
}

#[test]
fn str_eq_compares_characters() {
    assert!(str_eq("state", "state"));
    assert!(!str_eq("state", "State"));
    assert!(!str_eq("state", "stat"));
    assert!(str_eq("", ""));
}

#[test]
fn str_eq_ignore_ascii_case_folds_letters() {
    assert!(str_eq_ignore_ascii_case("DropOldest", "dropoldest"));
    assert!(str_eq_ignore_ascii_case("BLOCK", "block"));
    assert!(!str_eq_ignore_ascii_case("blocks", "block"));
    assert!(!str_eq_ignore_ascii_case("blocc", "block"));
}

#[test]
fn audio_error_variants_carry_their_detail() {
    let e = AudioError::DeviceError("no input device found".to_string());
    assert!(matches!(e, AudioError::DeviceError(ref msg) if msg == "no input device found"));
    assert!(matches!(AudioError::BufferOverflow, AudioError::BufferOverflow));
    assert!(matches!(AudioError::InvalidFormat, AudioError::InvalidFormat));
}
