use maenggu::codec::encode_save;
use maenggu::codec::parse_save;
use maenggu::save::SaveData;
use maenggu::save::SaveDataStats;
use maenggu::state::SnackState;

fn sample() -> SaveData {
    SaveData {
        version: 1,
        snacks: 42,
        stats: SaveDataStats {
            total_clicks: 7,
            total_feedings: 3,
            peak_snacks: 50,
            session_playtime: 120,
        },
    }
}

#[test]
fn encode_default_document() {
    let bytes = encode_save(&SaveData::default());
    let expected = "{\"version\":1,\"snacks\":0,\"stats\":{\"totalClicks\":0,\
                    \"totalFeedings\":0,\"peakSnacks\":0,\"sessionPlaytime\":0}}";
    assert_eq!(bytes, expected.as_bytes().to_vec());
}

#[test]
fn encode_sample_document() {
    let bytes = encode_save(&sample());
    let expected = "{\"version\":1,\"snacks\":42,\"stats\":{\"totalClicks\":7,\
                    \"totalFeedings\":3,\"peakSnacks\":50,\"sessionPlaytime\":120}}";
    assert_eq!(bytes, expected.as_bytes().to_vec());
}

#[test]
fn round_trip_default_state() {
    let d = SaveData::default();
    assert_eq!(parse_save(&encode_save(&d)), Some(d));
}

#[test]
fn round_trip_sample_state() {
    let d = sample();
    assert_eq!(parse_save(&encode_save(&d)), Some(d));
}

#[test]
fn round_trip_extreme_values() {
    let d = SaveData {
        version: 255,
        snacks: u32::MAX,
        stats: SaveDataStats {
            total_clicks: u32::MAX,
            total_feedings: 0,
            peak_snacks: u32::MAX,
            session_playtime: 1,
        },
    };
    assert_eq!(parse_save(&encode_save(&d)), Some(d));
}

#[test]
fn garbage_documents_are_rejected() {
    assert_eq!(parse_save(&Vec::new()), None);
    assert_eq!(parse_save(&b"hello".to_vec()), None);
    assert_eq!(parse_save(&b"{}".to_vec()), None);
    assert_eq!(parse_save(&b"{\"version\":".to_vec()), None);
}

#[test]
fn truncated_document_is_rejected() {
    let mut bytes = encode_save(&sample());
    bytes.pop();
    assert_eq!(parse_save(&bytes), None);
}

#[test]
fn trailing_bytes_are_rejected() {
    let mut bytes = encode_save(&sample());
    bytes.push(b' ');
    assert_eq!(parse_save(&bytes), None);
}

#[test]
fn superfluous_leading_zero_is_rejected() {
    let good = "{\"version\":1,\"snacks\":07,\"stats\":{\"totalClicks\":0,\
                \"totalFeedings\":0,\"peakSnacks\":0,\"sessionPlaytime\":0}}";
    assert_eq!(parse_save(&good.as_bytes().to_vec()), None);
}

#[test]
fn value_beyond_field_width_is_rejected() {
    let too_big = "{\"version\":1,\"snacks\":4294967296,\"stats\":{\"totalClicks\":0,\
                   \"totalFeedings\":0,\"peakSnacks\":0,\"sessionPlaytime\":0}}";
    assert_eq!(parse_save(&too_big.as_bytes().to_vec()), None);
    let version_too_big = "{\"version\":256,\"snacks\":0,\"stats\":{\"totalClicks\":0,\
                           \"totalFeedings\":0,\"peakSnacks\":0,\"sessionPlaytime\":0}}";
    assert_eq!(parse_save(&version_too_big.as_bytes().to_vec()), None);
}

#[test]
fn reordered_fields_are_rejected() {
    let reordered = "{\"snacks\":0,\"version\":1,\"stats\":{\"totalClicks\":0,\
                     \"totalFeedings\":0,\"peakSnacks\":0,\"sessionPlaytime\":0}}";
    assert_eq!(parse_save(&reordered.as_bytes().to_vec()), None);
}

#[test]
fn corrupt_read_falls_back_to_default_state() {
    let mut s = SnackState::default();
    s.snack_add(Some(5));
    let read = parse_save(&b"not a save file".to_vec());
    assert_eq!(read, None);
    let d = s.load_save(read);
    assert_eq!(d, SaveData::default());
}

#[test]
fn well_formed_read_loads_exactly() {
    let mut s = SnackState::default();
    let bytes = encode_save(&sample());
    let read = parse_save(&bytes);
    let d = s.load_save(read);
    assert_eq!(d, sample());
    assert_eq!(s.data, sample());
}
