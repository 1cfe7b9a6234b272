use quant_lab_engine::{DataError, Float64, Observation, observations_from_scan, scan_study_log, summarize};

fn fl(x: f64) -> Float64 {
    Float64::from_bits(x.to_bits())
}

/// Reads a study log as a program would: the library reads the text, the
/// scores are read as numbers here, and the library decides.
fn parse_observations(csv: &str) -> Result<Vec<Observation>, DataError> {
    let scan = scan_study_log(csv);
    let scores: Vec<Option<Float64>> = scan.rows.iter().map(|row| row.score_text.parse::<f64>().ok().map(fl)).collect();
    observations_from_scan(scan, &scores)
}

#[test]
fn parses_valid_csv() {
    let csv = "day,study_minutes,exercise_score\n2026-05-01,45,78.5\n";

    let observations = parse_observations(csv).expect("valid CSV should parse");

    assert_eq!(
        observations,
        vec![Observation { day: String::from("2026-05-01"), study_minutes: 45, exercise_score: fl(78.5) }]
    );
}

#[test]
fn rejects_csv_without_rows() {
    let csv = "day,study_minutes,exercise_score\n";

    let error = parse_observations(csv).expect_err("CSV without rows should fail");

    assert_eq!(error, DataError::NoRows);
}

#[test]
fn rejects_invalid_number() {
    let csv = "day,study_minutes,exercise_score\n2026-05-01,many,78.5\n";

    let error = parse_observations(csv).expect_err("invalid minutes should fail");

    assert_eq!(error, DataError::InvalidStudyMinutes { line: 2, value: String::from("many") });
}

#[test]
fn study_log_skips_blank_lines_and_trims() {
    let csv = "\n  day,study_minutes,exercise_score  \r\n\n 2026-05-01 , +45 , 78.5 \r\n   \n2026-05-02,0,90\n";
    let observations = parse_observations(csv).expect("valid");
    assert_eq!(observations.len(), 2);
    assert_eq!(observations[0].day, "2026-05-01");
    assert_eq!(observations[0].study_minutes, 45);
    assert_eq!(observations[1].exercise_score, fl(90.0));
}

#[test]
fn study_log_refuses_header_problems() {
    assert_eq!(parse_observations(""), Err(DataError::MissingHeader));
    assert_eq!(parse_observations(" \n\t\n"), Err(DataError::MissingHeader));
    assert_eq!(
        parse_observations("day,minutes,score\n2026-05-01,45,78.5\n"),
        Err(DataError::InvalidHeader {
            expected: "day,study_minutes,exercise_score",
            found: String::from("day,minutes,score"),
        })
    );
}

#[test]
fn study_log_refuses_bad_rows_with_line_numbers() {
    assert_eq!(
        parse_observations("day,study_minutes,exercise_score\n\n2026-05-01,45\n"),
        Err(DataError::WrongColumnCount { line: 3, expected: 3, found: 2 })
    );
    assert_eq!(
        parse_observations("day,study_minutes,exercise_score\n2026-05-01,45,78.5,1\n"),
        Err(DataError::WrongColumnCount { line: 2, expected: 3, found: 4 })
    );
    assert_eq!(
        parse_observations("day,study_minutes,exercise_score\n2026-05-01,4294967296,78.5\n"),
        Err(DataError::InvalidStudyMinutes { line: 2, value: String::from("4294967296") })
    );
    assert_eq!(
        parse_observations("day,study_minutes,exercise_score\n2026-05-01,-1,78.5\n"),
        Err(DataError::InvalidStudyMinutes { line: 2, value: String::from("-1") })
    );
    assert_eq!(
        parse_observations("day,study_minutes,exercise_score\n2026-05-01,4294967295,NaN\n"),
        Err(DataError::InvalidExerciseScore { line: 2, value: String::from("NaN") })
    );
    assert_eq!(
        parse_observations("day,study_minutes,exercise_score\n2026-05-01,1,x\n"),
        Err(DataError::InvalidExerciseScore { line: 2, value: String::from("x") })
    );
}

#[test]
fn an_earlier_bad_score_wins_over_a_later_bad_row() {
    assert_eq!(
        parse_observations("day,study_minutes,exercise_score\na,1,inf\nb,2\n"),
        Err(DataError::InvalidExerciseScore { line: 2, value: String::from("inf") })
    );
    assert_eq!(
        parse_observations("day,study_minutes,exercise_score\na,1,2\nb,2\n"),
        Err(DataError::WrongColumnCount { line: 3, expected: 3, found: 2 })
    );
}

#[test]
fn summarize_counts_totals_and_best_day() {
    let observations = vec![
        Observation { day: String::from("2026-05-01"), study_minutes: 40, exercise_score: fl(80.0) },
        Observation { day: String::from("2026-05-02"), study_minutes: 80, exercise_score: fl(90.0) },
    ];

    let summary = summarize(&observations).expect("non-empty observations have a summary");

    assert_eq!(summary.count, 2);
    assert_eq!(summary.total_study_minutes, 120);
    assert_eq!(summary.best_day, "2026-05-02");
    assert_eq!(summary.best_score, fl(90.0));
    assert!(summarize(&[]).is_none());
}

#[test]
fn best_day_is_the_last_of_equal_scores() {
    let observations = vec![
        Observation { day: String::from("a"), study_minutes: 1, exercise_score: fl(94.0) },
        Observation { day: String::from("b"), study_minutes: 1, exercise_score: fl(70.0) },
        Observation { day: String::from("c"), study_minutes: 1, exercise_score: fl(94.0) },
        Observation { day: String::from("d"), study_minutes: 1, exercise_score: fl(93.0) },
    ];
    let summary = summarize(&observations).expect("non-empty");
    assert_eq!(summary.best_day, "c");
    assert_eq!(summary.best_score, fl(94.0));
}

#[test]
fn data_error_messages() {
    assert_eq!(DataError::MissingHeader.message(), "CSV is missing a header row");
    assert_eq!(DataError::NoRows.message(), "CSV does not contain any data rows");
    assert_eq!(
        DataError::InvalidHeader { expected: "day,study_minutes,exercise_score", found: "x".to_string() }.message(),
        "invalid header: expected `day,study_minutes,exercise_score`, found `x`"
    );
    assert_eq!(
        DataError::WrongColumnCount { line: 12, expected: 3, found: 2 }.message(),
        "line 12 has 2 columns, but 3 columns are required"
    );
    assert_eq!(
        DataError::InvalidStudyMinutes { line: 2, value: "many".to_string() }.message(),
        "line 2 has invalid study_minutes value `many`"
    );
    assert_eq!(
        DataError::InvalidExerciseScore { line: 7, value: "".to_string() }.message(),
        "line 7 has invalid exercise_score value ``"
    );
}
