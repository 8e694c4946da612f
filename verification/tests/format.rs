use etl_exporter::cmd::{Format, Opts};
use etl_exporter::error::Error;

#[test]
fn format_reads_its_names() {
    assert_eq!(Format::from_str("csv"), Ok(Format::Csv));
    assert_eq!(Format::from_str("json"), Ok(Format::Json));
}

#[test]
fn format_reads_names_in_any_case() {
    assert_eq!(Format::from_str("CSV"), Ok(Format::Csv));
    assert_eq!(Format::from_str("Json"), Ok(Format::Json));
    assert_eq!(Format::from_str("jSoN"), Ok(Format::Json));
}

#[test]
fn format_refuses_other_texts() {
    assert_eq!(Format::from_str("xml"), Err(Error::Input("xml".to_string())));
    assert_eq!(Format::from_str(""), Err(Error::Input(String::new())));
    assert_eq!(Format::from_str("csv "), Err(Error::Input("csv ".to_string())));
    assert_eq!(Format::from_str("jsön"), Err(Error::Input("jsön".to_string())));
    assert_eq!(Format::from_str("c\u{212A}v"), Err(Error::Input("c\u{212A}v".to_string())));
}

#[test]
fn format_writes_its_name() {
    assert_eq!(Format::Csv.to_string(), "csv");
    assert_eq!(Format::Json.to_string(), "json");
}

#[test]
fn format_name_reads_back() {
    for format in [Format::Csv, Format::Json] {
        assert_eq!(Format::from_str(&format.to_string()), Ok(format));
    }
}

#[test]
fn format_defaults_to_json() {
    assert_eq!(Format::default(), Format::Json);
}

#[test]
fn opts_hold_the_environment_path() {
    let opts = Opts { env: Some(".env".to_string()) };
    assert_eq!(opts.env.as_deref(), Some(".env"));
    assert_eq!(Opts { env: None }.env, None);
}

#[test]
fn format_parses_as_a_string_does() {
    assert_eq!("csv".parse::<Format>(), Ok(Format::Csv));
    assert_eq!("JSON".parse::<Format>(), Ok(Format::Json));
    assert_eq!("yaml".parse::<Format>(), Err(Error::Input("yaml".to_string())));
}
