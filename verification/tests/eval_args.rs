use mdsearch::eval_args::{
    float_literal, parse_count, parse_eval_args, EvalArgsError, IntError, ThresholdArg,
};

fn args(list: &[&str]) -> Vec<String> {
    list.iter().map(|a| (*a).to_owned()).collect()
}

#[test]
fn parse_eval_args_defaults() -> Result<(), String> {
    let options = parse_eval_args(&[]).map_err(|e| e.message())?;
    assert_eq!(options.fixtures_dir, "tests/fixtures/eval");
    assert_eq!(options.cutoff_k, 5);
    assert!(!options.verify_only);
    assert_eq!(options.min_recall, ThresholdArg::Default);
    Ok(())
}

#[test]
fn parse_eval_args_custom_flags() -> Result<(), String> {
    let options = parse_eval_args(&args(&[
        "--fixtures",
        "custom/fixtures",
        "--k",
        "10",
        "--verify-only",
        "--fail-under-recall",
        "0.90",
    ]))
    .map_err(|e| e.message())?;
    assert_eq!(options.fixtures_dir, "custom/fixtures");
    assert_eq!(options.cutoff_k, 10);
    assert!(options.verify_only);
    assert_eq!(options.min_recall, ThresholdArg::Given(String::from("0.90")));
    Ok(())
}

#[test]
fn parse_eval_args_no_fail_clears_thresholds() -> Result<(), String> {
    let options = parse_eval_args(&args(&["--no-fail"])).map_err(|e| e.message())?;
    assert_eq!(options.min_recall, ThresholdArg::Cleared);
    assert_eq!(options.min_mrr, ThresholdArg::Cleared);
    assert_eq!(options.min_ndcg, ThresholdArg::Cleared);
    Ok(())
}

#[test]
fn parse_eval_args_rejects_unknown_flags() {
    let result = parse_eval_args(&args(&["--invalid-flag"]));
    assert_eq!(result, Err(EvalArgsError::UnknownOption(String::from("--invalid-flag"))));
    assert_eq!(
        EvalArgsError::UnknownOption(String::from("--invalid-flag")).message(),
        "unknown option for eval: '--invalid-flag'"
    );
}

#[test]
fn parse_eval_args_reports_missing_values_and_bad_numbers() {
    assert_eq!(
        parse_eval_args(&args(&["--k"])),
        Err(EvalArgsError::MissingArgument("--k"))
    );
    assert_eq!(
        parse_eval_args(&args(&["--k", "ten"])),
        Err(EvalArgsError::InvalidCount(IntError::InvalidDigit))
    );
    assert_eq!(
        parse_eval_args(&args(&["--fail-under-mrr", "high"])),
        Err(EvalArgsError::InvalidFloat)
    );
    assert_eq!(parse_eval_args(&args(&["-h"])), Err(EvalArgsError::Usage));
    assert_eq!(
        EvalArgsError::MissingArgument("--k").message(),
        "missing argument for --k"
    );
}

#[test]
fn count_parsing_matches_the_standard_library() {
    for text in ["0", "5", "+7", "", "+", "-", "-3", "12a", "a12", "18446744073709551615", "18446744073709551616", "99999999999999999999a"] {
        let expected = match text.parse::<usize>() {
            Ok(v) => Ok(v),
            Err(e) => Err(match e.kind() {
                std::num::IntErrorKind::Empty => IntError::Empty,
                std::num::IntErrorKind::InvalidDigit => IntError::InvalidDigit,
                _ => IntError::Overflow,
            }),
        };
        assert_eq!(parse_count(text), expected, "{text:?}");
    }
    assert_eq!(
        EvalArgsError::InvalidCount(IntError::Empty).message(),
        "".parse::<usize>().unwrap_err().to_string()
    );
    assert_eq!(
        EvalArgsError::InvalidCount(IntError::InvalidDigit).message(),
        "x".parse::<usize>().unwrap_err().to_string()
    );
    assert_eq!(
        EvalArgsError::InvalidCount(IntError::Overflow).message(),
        "99999999999999999999".parse::<usize>().unwrap_err().to_string()
    );
}

#[test]
fn float_literals_match_the_standard_library() {
    let samples = [
        "0", "0.85", "1.", ".5", "+.5", "-2.5e10", "1E-3", "1e", "e5", ".", "", "+", "inf", "-Infinity",
        "NaN", "nan ", " 1", "1.2.3", "1e+", "1e+5", "infinit", "0x10", "1_0", "١",
    ];
    for text in samples {
        assert_eq!(float_literal(text), text.parse::<f64>().is_ok(), "{text:?}");
    }
    assert_eq!(
        EvalArgsError::InvalidFloat.message(),
        "x".parse::<f64>().unwrap_err().to_string()
    );
}
