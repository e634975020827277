use ctftools::readers::all_readers;
use ctftools::readers::attempt;
use ctftools::readers::get_reader;
use ctftools::readers::run;
use ctftools::readers::select;
use ctftools::readers::Attempt;
use ctftools::readers::DecodeError;
use ctftools::readers::Event;
use ctftools::readers::Reader;

fn bitmap() -> Vec<u8> {
    let mut bytes: Vec<u8> = vec![0; 54];
    bytes[0] = 0x42;
    bytes[1] = 0x4d;
    bytes
}

#[test]
fn bmp_is_registered() {
    assert_eq!(get_reader("bmp"), Some(Reader::Bmp));
    assert_eq!(Reader::Bmp.name(), "bmp");
    assert_eq!(all_readers(), vec!["bmp"]);
}

#[test]
fn reader_names_are_case_sensitive() {
    assert_eq!(get_reader("BMP"), None);
    assert_eq!(get_reader("Bmp"), None);
    assert_eq!(get_reader("bmp "), None);
    assert_eq!(get_reader(""), None);
    assert_eq!(get_reader("png"), None);
    assert_eq!(get_reader("all"), None);
}

#[test]
fn every_listed_reader_resolves() {
    for name in all_readers() {
        assert_eq!(get_reader(name).unwrap().name(), name);
    }
}

#[test]
fn reader_reads_like_its_function() {
    let bytes = bitmap();
    let mut by_reader: Vec<Event> = Vec::new();
    let mut by_function: Vec<Event> = Vec::new();
    let first = Reader::Bmp.read(&bytes, &mut by_reader);
    let second = ctftools::readers::bmp::read(&bytes, &mut by_function);
    assert_eq!(first, second);
    assert_eq!(first, Ok((0, 54)));
    assert_eq!(by_reader, by_function);
}

#[test]
fn unknown_name_gives_unknown() {
    assert_eq!(attempt(&bitmap(), "png"), Attempt::Unknown);
    assert_eq!(attempt(&Vec::new(), "nothing"), Attempt::Unknown);
}

#[test]
fn attempt_holds_events_and_result() {
    match attempt(&bitmap(), "bmp") {
        Attempt::Read { events, result } => {
            assert_eq!(result, Ok((0, 54)));
            assert_eq!(events.len(), 3);
        },
        Attempt::Unknown => panic!("bmp is not known"),
    }
    match attempt(&vec![0x42], "bmp") {
        Attempt::Read { events, result } => {
            assert_eq!(
                result,
                Err(DecodeError::TruncatedInput {
                    field: "Magic",
                    offset: 0,
                    needed: 2,
                    available: 1
                })
            );
            assert!(events.is_empty());
        },
        Attempt::Unknown => panic!("bmp is not known"),
    }
}

#[test]
fn unknown_names_leave_the_others_alone() {
    let bytes = bitmap();
    let alone = run(&bytes, &vec!["bmp"]);
    let mixed = run(&bytes, &vec!["zip", "bmp", "", "bmp", "BMP"]);
    assert_eq!(alone.len(), 1);
    assert_eq!(mixed.len(), 5);
    assert_eq!(mixed[0], Attempt::Unknown);
    assert_eq!(mixed[1], alone[0]);
    assert_eq!(mixed[2], Attempt::Unknown);
    assert_eq!(mixed[3], alone[0]);
    assert_eq!(mixed[4], Attempt::Unknown);
}

#[test]
fn failed_reading_leaves_the_others_alone() {
    let short: Vec<u8> = vec![0x42, 0x4d, 0x00];
    let outcomes = run(&short, &vec!["bmp", "png", "bmp"]);
    assert_eq!(outcomes.len(), 3);
    assert_eq!(outcomes[0], attempt(&short, "bmp"));
    assert_eq!(outcomes[1], Attempt::Unknown);
    assert_eq!(outcomes[2], outcomes[0]);
}

#[test]
fn run_on_no_names_gives_nothing() {
    assert!(run(&bitmap(), &Vec::new()).is_empty());
}

#[test]
fn all_selects_every_reader() {
    assert_eq!(select(vec!["all"]), vec!["bmp"]);
    assert_eq!(select(vec!["png", "all", "bmp"]), vec!["bmp"]);
}

#[test]
fn other_requests_are_kept_as_they_are() {
    assert_eq!(select(vec!["bmp", "png"]), vec!["bmp", "png"]);
    assert_eq!(select(vec!["ALL"]), vec!["ALL"]);
    assert_eq!(select(Vec::new()), Vec::<&str>::new());
}
