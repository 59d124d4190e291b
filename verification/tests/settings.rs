use rustvox::settings::{power_of_two, Settings, CHUNKS_PER_FRAME, CHUNK_RADIUS, MAX_EDGE, N_WORKERS, S};

#[test]
fn shipped_settings() {
    let s = Settings::new();
    assert_eq!(s.chunk_radius, 20);
    assert_eq!(s.chunk_radius, CHUNK_RADIUS);
    assert_eq!(s.vertical_divisor, 3);
    assert_eq!(s.chunks_per_frame, 600);
    assert_eq!(s.chunks_per_frame, CHUNKS_PER_FRAME);
    assert_eq!(s.n_workers, N_WORKERS);
    assert_eq!(s.s, 32);
    assert_eq!(s.s, S);
    assert!(s.validate());
    assert_eq!(s.vertical_chunk_radius(), 6);
}

#[test]
fn settings_are_checked() {
    let good = Settings::new();
    assert!(!Settings { s: 0, ..good }.validate());
    assert!(!Settings { s: 24, ..good }.validate());
    assert!(!Settings { s: 512, ..good }.validate());
    assert!(Settings { s: 256, ..good }.validate());
    assert!(Settings { s: 1, ..good }.validate());
    assert!(Settings { s: 16, ..good }.validate());
    assert!(!Settings { chunk_radius: -1, ..good }.validate());
    assert!(Settings { chunk_radius: 0, ..good }.validate());
    assert!(!Settings { vertical_divisor: 0, ..good }.validate());
    assert!(!Settings { chunks_per_frame: -1, ..good }.validate());
    assert!(!Settings { n_workers: 0, ..good }.validate());
    assert!(MAX_EDGE >= 256);
}

#[test]
fn powers_of_two() {
    let yes = [1usize, 2, 4, 8, 16, 32, 64, 1 << 20];
    let no = [0usize, 3, 5, 6, 7, 12, 24, 100, (1 << 20) + 1];
    for n in yes {
        assert!(power_of_two(n));
    }
    for n in no {
        assert!(!power_of_two(n));
    }
}

#[test]
fn vertical_radius_is_a_fraction_of_the_radius() {
    let s = Settings { chunk_radius: 7, vertical_divisor: 2, ..Settings::new() };
    assert_eq!(s.vertical_chunk_radius(), 3);
    let s = Settings { chunk_radius: 2, vertical_divisor: 3, ..Settings::new() };
    assert_eq!(s.vertical_chunk_radius(), 0);
}
