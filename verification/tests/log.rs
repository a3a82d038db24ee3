use bite::log::{Color, Logger};

fn texts<const N: usize>(log: &Logger<N>) -> Vec<(String, Color)> {
    log.segments()
}

fn seg(text: &str, color: Color) -> (String, Color) {
    (text.to_string(), color)
}

#[test]
fn new_log_is_empty() {
    let log: Logger<4> = Logger::new();
    assert_eq!(log.count(), 0);
    assert!(texts(&log).is_empty());
    let none: Logger<0> = Logger::new();
    assert_eq!(none.count(), 0);
    assert!(texts(&none).is_empty());
}

#[test]
fn segments_come_out_oldest_first() {
    let mut log: Logger<4> = Logger::new();
    log.append("a".to_string(), Color::Red);
    assert_eq!(texts(&log), vec![seg("a", Color::Red)]);
    log.append("b".to_string(), Color::Green);
    log.append("c".to_string(), Color::Blue);
    assert_eq!(log.count(), 3);
    assert_eq!(
        texts(&log),
        vec![seg("a", Color::Red), seg("b", Color::Green), seg("c", Color::Blue)]
    );
}

#[test]
fn full_log_drops_its_oldest() {
    let mut log: Logger<3> = Logger::new();
    log.append("a".to_string(), Color::Red);
    log.append("b".to_string(), Color::Green);
    log.append("c".to_string(), Color::Blue);
    assert_eq!(log.count(), 3);
    assert_eq!(
        texts(&log),
        vec![seg("a", Color::Red), seg("b", Color::Green), seg("c", Color::Blue)]
    );
    log.append("d".to_string(), Color::Yellow);
    assert_eq!(log.count(), 3);
    assert_eq!(
        texts(&log),
        vec![seg("b", Color::Green), seg("c", Color::Blue), seg("d", Color::Yellow)]
    );
    log.append("e".to_string(), Color::White);
    log.append("f".to_string(), Color::Gray);
    log.append("g".to_string(), Color::Red);
    assert_eq!(
        texts(&log),
        vec![seg("e", Color::White), seg("f", Color::Gray), seg("g", Color::Red)]
    );
}

#[test]
fn log_of_one_keeps_the_last() {
    let mut log: Logger<1> = Logger::new();
    log.append("a".to_string(), Color::Red);
    log.append("b".to_string(), Color::Green);
    assert_eq!(texts(&log), vec![seg("b", Color::Green)]);
}

#[test]
fn clear_empties_and_restarts() {
    let mut log: Logger<3> = Logger::new();
    for text in ["a", "b", "c", "d"] {
        log.append(text.to_string(), Color::White);
    }
    log.clear();
    assert_eq!(log.count(), 0);
    assert!(texts(&log).is_empty());
    log.append("e".to_string(), Color::Gray);
    log.append("f".to_string(), Color::Blue);
    assert_eq!(texts(&log), vec![seg("e", Color::Gray), seg("f", Color::Blue)]);
    log.clear();
    log.clear();
    assert!(texts(&log).is_empty());
}

#[test]
fn long_run_keeps_the_last_n() {
    let mut log: Logger<5> = Logger::new();
    for i in 0..1000 {
        log.append(i.to_string(), Color::White);
        let held = texts(&log);
        let first = if i < 5 { 0 } else { i - 4 };
        let expected: Vec<(String, Color)> =
            (first..=i).map(|j| (j.to_string(), Color::White)).collect();
        assert_eq!(held, expected);
    }
}
