use quant_lab_engine::{EngineError, collect_pieces, partition_ranges};

#[test]
fn partition_ranges_validation_is_explicit() {
    assert_eq!(partition_ranges(0, 2), Err(EngineError::EmptyInput { context: "parallel input" }));
    assert_eq!(
        partition_ranges(3, 0),
        Err(EngineError::InvalidConfig { context: "parallel workers must be greater than zero" })
    );
    assert_eq!(
        partition_ranges(3, 10).expect("partitions are capped to input length"),
        vec![(0, 1), (1, 2), (2, 3)]
    );
}

#[test]
fn partition_ranges_put_the_wider_ranges_first() {
    assert_eq!(partition_ranges(8, 3).expect("valid"), vec![(0, 3), (3, 6), (6, 8)]);
    assert_eq!(partition_ranges(10, 4).expect("valid"), vec![(0, 3), (3, 6), (6, 8), (8, 10)]);
    assert_eq!(partition_ranges(5, 1).expect("valid"), vec![(0, 5)]);
}

#[test]
fn partition_ranges_cover_the_input_in_order() {
    for len in 1..40usize {
        for workers in 1..12usize {
            let ranges = partition_ranges(len, workers).expect("valid");
            assert_eq!(ranges.len(), workers.min(len));
            assert_eq!(ranges[0].0, 0);
            assert_eq!(ranges[ranges.len() - 1].1, len);
            for pair in ranges.windows(2) {
                assert_eq!(pair[0].1, pair[1].0);
            }
            let widths: Vec<usize> = ranges.iter().map(|(s, e)| e - s).collect();
            let most = *widths.iter().max().unwrap();
            let least = *widths.iter().min().unwrap();
            assert!(least >= 1 && most - least <= 1);
        }
    }
}

#[test]
fn pieces_rejoin_in_order() {
    let items: Vec<u32> = (0..11).collect();
    let ranges = partition_ranges(items.len(), 4).expect("valid");
    let pieces: Vec<Vec<Result<u32, EngineError>>> =
        ranges.iter().map(|(s, e)| items[*s..*e].iter().map(|x| Ok(*x)).collect()).collect();

    assert_eq!(collect_pieces(pieces), Ok(items));
}

#[test]
fn collected_pieces_report_the_first_error_in_order() {
    let pieces: Vec<Vec<Result<u32, EngineError>>> = vec![
        vec![Ok(1), Ok(2)],
        vec![Ok(3), Err(EngineError::MissingTimestamp { timestamp: 7 })],
        vec![Err(EngineError::MissingTimestamp { timestamp: 9 })],
    ];

    assert_eq!(collect_pieces(pieces), Err(EngineError::MissingTimestamp { timestamp: 7 }));
}

#[test]
fn collecting_no_pieces_gives_nothing() {
    let pieces: Vec<Vec<Result<u32, EngineError>>> = vec![vec![], vec![]];
    assert_eq!(collect_pieces(pieces), Ok(Vec::new()));
}
