use sonnets::config::{Config, OUTPUT_DIRECTORY, OUTPUT_FILE, SOURCE_URL};
use sonnets::extract::ExtractError;
use sonnets::failure::{respond, Failure, Response};
use sonnets::record::SonnetRecord;
use sonnets::select::select_sonnets;

#[test]
fn default_config_is_the_fixed_address_and_path() {
    let config = Config::default();
    assert_eq!(
        config.url,
        "https://ocw.mit.edu/ans7870/6/6.006/s08/lecturenotes/files/t8.shakespeare.txt"
    );
    assert_eq!(config.directory, "data");
    assert_eq!(config.file, "sonnets.json");
    assert_eq!(config.output_path(), "data/sonnets.json");
    assert_eq!(config.url, SOURCE_URL);
    assert_eq!(config.directory, OUTPUT_DIRECTORY);
    assert_eq!(config.file, OUTPUT_FILE);
}

#[test]
fn output_path_joins_directory_and_file() {
    let config = Config {
        url: String::new(),
        directory: "out/été".to_string(),
        file: "s.json".to_string(),
    };
    assert_eq!(config.output_path(), "out/été/s.json");
    let bare = Config { url: String::new(), directory: String::new(), file: String::new() };
    assert_eq!(bare.output_path(), "/");
}

#[test]
fn only_fetch_marker_and_file_failures_end_the_run() {
    assert_eq!(respond(Failure::Fetch), Response::Abort);
    assert_eq!(respond(Failure::MarkerSearch(ExtractError::MissingStartMarker)), Response::Abort);
    assert_eq!(respond(Failure::MarkerSearch(ExtractError::MissingEndMarker)), Response::Abort);
    assert_eq!(respond(Failure::FileWrite), Response::Abort);
    assert_eq!(respond(Failure::HeaderParse), Response::Report);
    assert_eq!(respond(Failure::DirectoryCreation), Response::Report);
    assert_eq!(respond(Failure::DirectoryExists), Response::Ignore);
}

fn to_json(sonnets: &[SonnetRecord]) -> serde_json::Value {
    let mut array = Vec::new();
    for sonnet in sonnets {
        let mut object = serde_json::Map::new();
        object.insert("number".to_string(), serde_json::Value::from(sonnet.number));
        object.insert("lines".to_string(), serde_json::Value::from(sonnet.lines.clone()));
        array.push(serde_json::Value::Object(object));
    }
    serde_json::Value::Array(array)
}

fn from_json(value: &serde_json::Value) -> Vec<SonnetRecord> {
    let mut sonnets = Vec::new();
    for object in value.as_array().unwrap() {
        let number = object["number"].as_u64().unwrap();
        assert!(number <= 255);
        let mut lines = Vec::new();
        for line in object["lines"].as_array().unwrap() {
            lines.push(line.as_str().unwrap().to_string());
        }
        assert_eq!(object.as_object().unwrap().len(), 2);
        sonnets.push(SonnetRecord { number: number as u8, lines });
    }
    sonnets
}

#[test]
fn records_survive_the_way_through_json() {
    let document = "THE SONNETS\n\nby William Shakespeare\n\n\n\n\
        1\nFrom fairest \"creatures\" we desire increase,\n\
        \tThat thereby beauty's rose might never die, \\ é 日本\n\n\
        IV\nlost\n\n\
        255\n\n\n\n\
        THE END";
    let sonnets = select_sonnets(document).unwrap().sonnets;
    assert_eq!(sonnets.len(), 4);
    let written = serde_json::to_string_pretty(&to_json(&sonnets)).unwrap();
    let read: serde_json::Value = serde_json::from_str(&written).unwrap();
    assert_eq!(from_json(&read), sonnets);
    let empty: Vec<SonnetRecord> = Vec::new();
    let written = serde_json::to_string_pretty(&to_json(&empty)).unwrap();
    assert_eq!(written, "[]");
    let read: serde_json::Value = serde_json::from_str(&written).unwrap();
    assert_eq!(from_json(&read), empty);
}
