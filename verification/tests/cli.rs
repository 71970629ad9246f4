use boreal::cli::{channel_capacity, skip_file, worker_count, ScanOptions};

#[test]
fn test_types() {
    fn test<T: Clone + std::fmt::Debug + Send + Sync>(t: T) {
        #[allow(clippy::redundant_clone)]
        let _r = t.clone();
        let _r = format!("{:?}", &t);
    }

    test(ScanOptions {
        print_module_data: false,
        no_mmap: false,
    });
}

#[test]
fn scan_options_ignore_no_mmap_without_memory_maps() {
    let o = ScanOptions::new(true, true, false);
    assert!(o.print_module_data);
    assert!(!o.no_mmap);
    let o = ScanOptions::new(false, true, true);
    assert!(!o.print_module_data);
    assert!(o.no_mmap);
}

#[test]
fn worker_count_cases() {
    assert_eq!(worker_count(Some(8), Some(4)), 8);
    assert_eq!(worker_count(Some(1), Some(4)), 1);
    assert_eq!(worker_count(Some(0), Some(4)), 0);
    assert_eq!(worker_count(None, Some(4)), 4);
    assert_eq!(worker_count(None, None), 32);
    assert_eq!(channel_capacity(3), 15);
    assert_eq!(channel_capacity(worker_count(Some(8), None)), 40);
}

#[test]
fn skip_file_cases() {
    assert!(skip_file(Some(10), 1, 10));
    assert!(!skip_file(Some(10), 1, 9));
    assert!(!skip_file(Some(10), 0, 100));
    assert!(!skip_file(Some(0), 1, 100));
    assert!(!skip_file(None, 1, 100));
}
