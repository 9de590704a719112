use ritual::file::{
    record_size_of, CompassFile, CompassFileError, ENERGY, ENERGY_CALIBRATED, ENERGY_SHORT,
    FILE_HEADER_SIZE, WAVES,
};

fn open(path: &str, low: u8, high: u8) -> CompassFile {
    CompassFile::new(path, Ok([low, high])).expect("the file opens")
}

#[test]
fn flags_have_their_bits() {
    assert_eq!(ENERGY, 0x0001);
    assert_eq!(ENERGY_CALIBRATED, 0x0002);
    assert_eq!(ENERGY_SHORT, 0x0004);
    assert_eq!(WAVES, 0x0008);
}

#[test]
fn record_size_without_flags_is_the_fixed_fields() {
    assert_eq!(record_size_of(0), 16);
}

#[test]
fn record_size_adds_two_for_energy() {
    assert_eq!(record_size_of(ENERGY), 18);
}

#[test]
fn record_size_adds_two_for_short_energy() {
    assert_eq!(record_size_of(ENERGY_SHORT), 18);
}

#[test]
fn record_size_adds_eight_for_calibrated_energy() {
    assert_eq!(record_size_of(ENERGY_CALIBRATED), 24);
}

#[test]
fn record_size_for_every_combination() {
    for word in 0u16..8 {
        let energy = (word & 1) as usize;
        let calibrated = ((word >> 1) & 1) as usize;
        let short = ((word >> 2) & 1) as usize;
        assert_eq!(record_size_of(word), 16 + 2 * energy + 2 * short + 8 * calibrated);
    }
    assert_eq!(record_size_of(0x0007), 28);
    assert_eq!(record_size_of(0x0005), 20);
    assert_eq!(record_size_of(0x0003), 26);
    assert_eq!(record_size_of(0x0006), 26);
}

#[test]
fn record_size_passes_over_other_bits() {
    assert_eq!(record_size_of(0xfff0), 16);
    assert_eq!(record_size_of(0xfff8 | ENERGY), 18);
}

#[test]
fn decoder_size_matches_the_formula_for_every_header_without_waves() {
    for word in 0u16..=0x00ff {
        if word & WAVES != 0 {
            continue;
        }
        let file = open("data.BIN", word as u8, 0);
        let energy = (word & 1) as usize;
        let calibrated = ((word >> 1) & 1) as usize;
        let short = ((word >> 2) & 1) as usize;
        assert_eq!(file.hit_size(), 16 + 2 * energy + 2 * short + 8 * calibrated);
        assert_eq!(file.data_type(), word);
    }
}

#[test]
fn open_reads_the_header_low_byte_first() {
    let file = open("run_1/a.BIN", 0x05, 0x01);
    assert_eq!(file.data_type(), 0x0105);
    assert_eq!(file.hit_size(), 20);
    assert_eq!(file.filepath(), "run_1/a.BIN");
    assert_eq!(file.cursor(), FILE_HEADER_SIZE);
}

#[test]
fn open_rejects_waveforms() {
    match CompassFile::new("run_1/w.BIN", Ok([0x08, 0x00])) {
        Err(CompassFileError::WavesError(path)) => assert_eq!(path, "run_1/w.BIN"),
        other => panic!("expected a waves error, got {:?}", other),
    }
}

#[test]
fn open_rejects_waveforms_beside_other_flags() {
    for low in [0x09u8, 0x0a, 0x0c, 0x0f, 0xf8] {
        assert!(matches!(
            CompassFile::new("w.BIN", Ok([low, 0x00])),
            Err(CompassFileError::WavesError(_))
        ));
    }
}

#[test]
fn open_passes_the_read_failure_on() {
    match CompassFile::new("gone.BIN", Err(String::from("failed to fill whole buffer"))) {
        Err(CompassFileError::IOError(path, cause)) => {
            assert_eq!(path, "gone.BIN");
            assert_eq!(cause, "failed to fill whole buffer");
        },
        other => panic!("expected an io error, got {:?}", other),
    }
}

#[test]
fn energy_file_delivers_what_was_appended() {
    let mut file = open("run_7/UNFILTERED/ch0.BIN", 0x01, 0x00);
    assert_eq!(file.hit_size(), 18);
    let mut contents: Vec<u8> = vec![0x01, 0x00];
    contents.extend((0u8..36).collect::<Vec<u8>>());
    let message = file.read_data(Ok(contents)).expect("the read goes through");
    assert_eq!(message.data.len(), 36);
    assert_eq!(message.data, (0u8..36).collect::<Vec<u8>>());
    assert_eq!(message.hit_size, 18);
    assert_eq!(message.data_type, 0x0001);
    assert_eq!(message.size, 54);
    assert_eq!(file.cursor(), 38);
}

#[test]
fn read_of_unchanged_file_delivers_nothing() {
    let mut file = open("a.BIN", 0x00, 0x00);
    let contents: Vec<u8> = vec![0, 0, 1, 2, 3, 4];
    let first = file.read_data(Ok(contents.clone())).expect("the read goes through");
    assert_eq!(first.data, vec![1, 2, 3, 4]);
    for _ in 0..3 {
        let again = file.read_data(Ok(contents.clone())).expect("the read goes through");
        assert!(again.data.is_empty());
        assert_eq!(again.size, 18);
        assert_eq!(again.hit_size, 16);
        assert_eq!(file.cursor(), 6);
    }
}

#[test]
fn read_delivers_each_byte_once() {
    let mut file = open("a.BIN", 0x02, 0x00);
    let mut delivered: Vec<u8> = Vec::new();
    let whole: Vec<u8> = (0u8..50).collect();
    for end in [2usize, 5, 5, 17, 40, 50] {
        let mut contents: Vec<u8> = vec![0x02, 0x00];
        contents.extend_from_slice(&whole[2..end]);
        let message = file.read_data(Ok(contents)).expect("the read goes through");
        delivered.extend_from_slice(&message.data);
        assert_eq!(file.cursor(), end);
    }
    assert_eq!(delivered, whole[2..].to_vec());
}

#[test]
fn read_of_header_alone_delivers_an_empty_message() {
    let mut file = open("a.BIN", 0x04, 0x00);
    let message = file.read_data(Ok(vec![0x04, 0x00])).expect("the read goes through");
    assert!(message.data.is_empty());
    assert_eq!(message.size, 18);
    assert_eq!(message.hit_size, 18);
    assert_eq!(message.data_type, 0x0004);
}

#[test]
fn read_may_deliver_part_of_a_record() {
    let mut file = open("a.BIN", 0x00, 0x00);
    let message = file.read_data(Ok(vec![0, 0, 9, 9, 9])).expect("the read goes through");
    assert_eq!(message.data, vec![9, 9, 9]);
    assert_eq!(message.hit_size, 16);
}

#[test]
fn failed_read_leaves_the_decoder_as_it_was() {
    let mut file = open("dir/a.BIN", 0x00, 0x00);
    file.read_data(Ok(vec![0, 0, 1])).expect("the read goes through");
    match file.read_data(Err(String::from("permission denied"))) {
        Err(CompassFileError::IOError(path, cause)) => {
            assert_eq!(path, "dir/a.BIN");
            assert_eq!(cause, "permission denied");
        },
        other => panic!("expected an io error, got {:?}", other),
    }
    assert_eq!(file.cursor(), 3);
    let message = file.read_data(Ok(vec![0, 0, 1, 2, 3])).expect("the read goes through");
    assert_eq!(message.data, vec![2, 3]);
}

#[test]
fn file_shorter_than_the_cursor_delivers_nothing() {
    let mut file = open("a.BIN", 0x00, 0x00);
    file.read_data(Ok(vec![0, 0, 1, 2, 3])).expect("the read goes through");
    let message = file.read_data(Ok(vec![0, 0, 1])).expect("the read goes through");
    assert!(message.data.is_empty());
    assert_eq!(file.cursor(), 5);
    let empty = file.read_data(Ok(Vec::new())).expect("the read goes through");
    assert!(empty.data.is_empty());
    assert_eq!(file.cursor(), 5);
}

#[test]
fn io_error_in_words() {
    let error = CompassFileError::IOError(String::from("a/b.BIN"), String::from("broken"));
    assert_eq!(error.describe(), "File a/b.BIN ran into an error: broken");
}

#[test]
fn waves_error_in_words() {
    let error = CompassFileError::WavesError(String::from("a/b.BIN"));
    assert_eq!(error.describe(), "File a/b.BIN was detected to be in waves mode!");
}
