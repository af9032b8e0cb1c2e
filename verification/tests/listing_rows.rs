use totpkeep::listing::{progress_seconds, registry_table};
use totpkeep::records::ServiceRecord;
use totpkeep::totp::totp;

#[test]
fn listing_has_one_row_per_record() {
    let registry = vec![
        ServiceRecord { name: "one".to_string(), secret: b"12345678901234567890".to_vec() },
        ServiceRecord { name: "two".to_string(), secret: b"Hello".to_vec() },
    ];
    let now = 59u64;
    let table = registry_table(&registry, now);
    assert_eq!(table.get_cell_data(0, 0), Some(&"one".to_string()));
    assert_eq!(table.get_cell_data(1, 0), Some(&"two".to_string()));
    // The three code columns hold the codes for the previous, current and
    // next thirty-second step.
    assert_eq!(table.get_cell_data(0, 1), Some(&totp(b"12345678901234567890", 29)));
    assert_eq!(table.get_cell_data(0, 2), Some(&totp(b"12345678901234567890", 59)));
    assert_eq!(table.get_cell_data(0, 3), Some(&totp(b"12345678901234567890", 89)));
    assert_eq!(table.get_cell_data(0, 1), Some(&"755224".to_string()));
    assert_eq!(table.get_cell_data(0, 2), Some(&"287082".to_string()));
}

#[test]
fn progress_seconds_wraps_at_step_boundary() {
    assert_eq!(progress_seconds(60), 30);
    assert_eq!(progress_seconds(61), 1);
    assert_eq!(progress_seconds(89), 29);
    assert_eq!(progress_seconds(90), 30);
}
