use lara::{
    count_helper, decimal_string, elapsed, elapsed_at, format_bind_params, interrupt_action, wait_millis,
    zero_padded_string, InterruptAction, SignalHandler, Timestamp, HALF_DAY, ONE_DAY, TWO_DAYS,
};

#[test]
fn elapsed_counts_whole_seconds() {
    let since = Timestamp { millis: 10_000 };
    assert!(!elapsed_at(since, 5, Timestamp { millis: 15_999 }));
    assert!(!elapsed_at(since, 5, Timestamp { millis: 15_000 }));
    assert!(elapsed_at(since, 5, Timestamp { millis: 16_000 }));
    // a time in the future counts as one second
    assert!(elapsed_at(since, 0, Timestamp { millis: 0 }));
    assert!(!elapsed_at(since, 1, Timestamp { millis: 0 }));
    assert!(elapsed(Timestamp { millis: 0 }, ONE_DAY));
    assert_eq!((HALF_DAY, ONE_DAY, TWO_DAYS), (43_200, 86_400, 172_800));
}

#[test]
fn wait_until() {
    assert_eq!(wait_millis(Timestamp { millis: 500 }, Timestamp { millis: 200 }), 300);
    assert_eq!(wait_millis(Timestamp { millis: 100 }, Timestamp { millis: 200 }), 0);
}

#[test]
fn decimal_texts() {
    assert_eq!(decimal_string(0), "0");
    assert_eq!(decimal_string(907), "907");
    assert_eq!(decimal_string(u64::MAX), "18446744073709551615");
    assert_eq!(zero_padded_string(5, 3), "005");
    assert_eq!(zero_padded_string(12345, 3), "12345");
}

#[test]
fn bind_params() {
    assert_eq!(format_bind_params(2, 3), "($1,$2,$3),($4,$5,$6)");
    assert_eq!(format_bind_params(1, 1), "($1)");
    assert_eq!(format_bind_params(0, 3), "");
    assert_eq!(format_bind_params(3, 2), "($1,$2),($3,$4),($5,$6)");
}

#[test]
fn counts_items() {
    assert_eq!(count_helper([(), (), (), ()]), 4);
    assert_eq!(count_helper([]), 0);
}

#[test]
fn grace_is_exclusive_and_scoped() {
    let handler = SignalHandler::new();
    assert_eq!(handler.on_interrupt(), InterruptAction::Exit);
    {
        let grace = handler.grace().unwrap();
        assert!(handler.grace().is_none());
        assert!(!grace.is_interrupted());
        let callback_side = handler.share();
        assert_eq!(callback_side.on_interrupt(), InterruptAction::Continue);
        assert!(grace.is_interrupted());
    }
    // released: a new token can be had, and interrupts end the process
    assert_eq!(handler.on_interrupt(), InterruptAction::Exit);
    assert!(handler.grace().is_some());
}

#[test]
fn interrupt_actions() {
    assert_eq!(interrupt_action(true), InterruptAction::Continue);
    assert_eq!(interrupt_action(false), InterruptAction::Exit);
}
