use wikifunctions_interpreter::{EvaluationError, EvaluationErrorKind, Reference, TraceInfo};

fn return_error_info() -> Result<(), EvaluationError> {
    Err(EvaluationErrorKind::LowLevelNotAMap)?;
    unreachable!();
}

#[test]
fn test_evaluation_error_info_from() {
    return_error_info().unwrap_err().source().unwrap();
}

#[test]
fn test_evaluation_error_info_run_with_frame() {
    assert_eq!(
        EvaluationError::run_with_frame(TraceInfo::InsideArray(1), || -> Result<(), _> {
            Err(EvaluationError::new(EvaluationErrorKind::LowLevelNotAMap))
        })
        .unwrap_err()
        .frames,
        vec![TraceInfo::InsideArray(1)]
    );

    assert_eq!(
        EvaluationError::run_with_frame_fun(
            || TraceInfo::InsideArray(10),
            || -> Result<(), _> { Err(EvaluationError::new(EvaluationErrorKind::LowLevelNotAMap)) }
        )
        .unwrap_err()
        .frames,
        vec![TraceInfo::InsideArray(10)]
    );
}

#[test]
fn frames_given_top_down_are_stored_bottom_up() {
    let e = EvaluationError::run_with_frame_fun_multiple(
        || vec![TraceInfo::InsideArray(1), TraceInfo::InsideArray(2)],
        || -> Result<(), _> {
            Err(EvaluationError::new(EvaluationErrorKind::LowLevelNotAString)
                .add_frame_constructor(TraceInfo::InsideArray(3)))
        },
    )
    .unwrap_err();
    assert_eq!(
        e.frames,
        vec![
            TraceInfo::InsideArray(3),
            TraceInfo::InsideArray(2),
            TraceInfo::InsideArray(1)
        ]
    );
    assert_eq!(e.root_kind, EvaluationErrorKind::LowLevelNotAString);
    let ok = EvaluationError::run_with_frame(TraceInfo::InsideArray(0), || -> Result<u8, _> {
        Ok(5)
    });
    assert_eq!(ok.unwrap(), 5);
}

#[test]
fn traces_wrap_the_kind() {
    let k = EvaluationErrorKind::MissingKey(Reference::from_zid("Z2K1").unwrap())
        .trace_str("parsing id");
    match k {
        EvaluationErrorKind::Previous(m, inner) => {
            assert_eq!(m, "parsing id");
            assert_eq!(
                *inner,
                EvaluationErrorKind::MissingKey(Reference::from_zid("Z2K1").unwrap())
            );
        }
        _ => panic!("not a trace"),
    }
    assert!(TraceInfo::Reference(Reference::from_zid("Z1").unwrap()).should_start_new_section_before());
    assert!(TraceInfo::InsideInput("x".to_string()).should_start_new_section_before());
    assert!(!TraceInfo::InsideArray(0).should_start_new_section_before());
    assert!(TraceInfo::ProcessingResult(wikifunctions_interpreter::DataEntry::String("a".to_string()))
        .should_start_new_section_after());
    assert!(!TraceInfo::InsideArray(0).should_start_new_section_after());
}
