use waved::{square, CommandLineArgs, Logger};

#[test]
fn square_wave_alternates_each_half_period() {
    let mut wave = square(8, 1);
    let values: Vec<i32> = (0..10).map(|_| wave.next_sample()).collect();
    assert_eq!(values, vec![-1, -1, -1, -1, 1, 1, 1, 1, -1, -1]);
}

#[test]
fn square_wave_restarts_on_each_call() {
    let mut a = square(44100, 1000);
    let mut b = square(44100, 1000);
    let first: Vec<i32> = (0..50).map(|_| a.next_sample()).collect();
    let second: Vec<i32> = (0..50).map(|_| b.next_sample()).collect();
    assert_eq!(first, second);
    assert_eq!(first[0], -1);
    assert_eq!(first[22], -1);
    assert_eq!(first[23], 1);
}

#[test]
fn logger_keeps_messages_in_order() {
    let mut logger = Logger::new();
    assert!(logger.messages().is_empty());
    logger.log(std::fmt::Error);
    logger.log("second");
    assert_eq!(logger.messages().len(), 2);
    assert_eq!(logger.messages()[0], "Error");
    assert_eq!(logger.messages()[1], "\"second\"");
}

#[test]
fn command_line_holds_files() {
    let args = CommandLineArgs { files: vec!["a.wav".to_string()] };
    assert_eq!(args.files.len(), 1);
}
