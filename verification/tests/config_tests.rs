use ulp_extractor::classify::CredType;
use ulp_extractor::config::{
    keyword_fields, output_file_name, output_path, parse_keywords, ConfigError, Failure,
    Persistence, RunConfig,
};
use ulp_extractor::extract::ExtractionMode;

fn words(items: &[&str]) -> Vec<String> {
    items.iter().map(|s| s.to_string()).collect()
}

#[test]
fn keywords_are_split_on_commas_and_spaces() {
    assert_eq!(parse_keywords("site,bank shop"), words(&["site", "bank", "shop"]));
    assert_eq!(parse_keywords("site"), words(&["site"]));
    assert_eq!(parse_keywords(""), Vec::<String>::new());
    assert_eq!(parse_keywords(" , ,, "), Vec::<String>::new());
    assert_eq!(parse_keywords(",site, ,bank,"), words(&["site", "bank"]));
}

#[test]
fn keywords_are_lowered_and_trimmed() {
    assert_eq!(parse_keywords("Site.COM,BANK"), words(&["site.com", "bank"]));
    assert_eq!(parse_keywords("\tSite\t,ÄB"), words(&["site", "äb"]));
    // a part of white space alone holds something, and is trimmed to nothing
    assert_eq!(parse_keywords("a,\t,b"), words(&["a", "", "b"]));
}

#[test]
fn file_name_from_first_keyword() {
    assert_eq!(
        output_file_name(&words(&["site.com", "bank"]), CredType::Email),
        "site_com_email.txt"
    );
    assert_eq!(
        output_file_name(&words(&["http://a.b/c"]), CredType::Rut),
        "http:__a_b_c_rut.txt"
    );
    assert_eq!(output_file_name(&words(&[""]), CredType::User), "_user.txt");
}

#[test]
fn file_name_without_keywords() {
    assert_eq!(output_file_name(&Vec::new(), CredType::All), "all_all.txt");
    assert_eq!(output_file_name(&Vec::new(), CredType::Numeric), "all_numeric.txt");
}

#[test]
fn path_joins_directory_and_name() {
    assert_eq!(output_path("/tmp/out", "all_all.txt"), "/tmp/out/all_all.txt");
    assert_eq!(output_path("", "x"), "/x");
}

#[test]
fn default_run() {
    let c = RunConfig::default();
    assert_eq!(c.worker_count, 4);
    assert!(!c.append_mode);
    assert_eq!(c.persistence, Persistence::Buffered);
    assert!(c.scan.keywords.is_empty());
    assert!(c.scan.filter.is_empty());
    assert_eq!(c.scan.mode, ExtractionMode::FixedThreeField);
    assert!(!c.scan.strip_dots);
    assert!(!c.scan.pass_only);
    assert_eq!(c.scan.thresholds.min_pass_len, 4);
    assert_eq!(c.validate(), Ok(()));
}

#[test]
fn zero_workers_are_refused() {
    let mut c = RunConfig::default();
    c.worker_count = 0;
    assert_eq!(c.validate(), Err(ConfigError::ZeroWorkers));
    c.scan.thresholds.min_rut_len = 9;
    assert_eq!(c.validate(), Err(ConfigError::ZeroWorkers));
}

#[test]
fn crossed_thresholds_are_refused() {
    let mut c = RunConfig::default();
    c.scan.thresholds.min_rut_len = 9;
    assert_eq!(c.validate(), Err(ConfigError::InvalidThresholds));
    c.scan.thresholds.max_rut_len = 9;
    assert_eq!(c.validate(), Ok(()));
}

#[test]
fn only_a_file_that_cannot_be_opened_is_passed_over() {
    assert!(Failure::DirectoryRead.aborts_run());
    assert!(Failure::OutputWrite.aborts_run());
    assert!(Failure::Config(ConfigError::ZeroWorkers).aborts_run());
    assert!(Failure::Config(ConfigError::InvalidThresholds).aborts_run());
    assert!(!Failure::FileOpen.aborts_run());
}

#[test]
fn keyword_fields_keep_their_case() {
    assert_eq!(keyword_fields("Site.COM,BANK shop"), words(&["Site.COM", "BANK", "shop"]));
    assert_eq!(keyword_fields("  a  ,,b "), words(&["a", "b"]));
    assert_eq!(keyword_fields("\ta\t \n"), words(&["a", ""]));
    assert_eq!(keyword_fields(""), Vec::<String>::new());
    assert_eq!(keyword_fields("a;b|c"), words(&["a;b|c"]));
}
