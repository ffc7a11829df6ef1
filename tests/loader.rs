use germinate::loader::{first_match, METADATA_BASE_URL};
use germinate::{
    parameter_value, AwsEc2MetadataLoader, AwsEc2TagLoader, EnvironmentLoader, ParameterError,
    ParameterReply, Tag, TagError,
};

fn tag(key: Option<&str>, value: Option<&str>) -> Tag {
    Tag { key: key.map(String::from), value: value.map(String::from) }
}

fn instance_tags() -> AwsEc2TagLoader {
    AwsEc2TagLoader::from_tags(Some(vec![
        tag(Some("Name"), Some("my-instance")),
        tag(Some("TestTag"), Some("test value")),
    ]))
    .unwrap()
}

fn tag_value() -> String {
    String::from("test value")
}

#[test]
fn test_aws_ec2_tag_load_basic() {
    let loader = instance_tags();
    let actual = loader.get_tag_value("TestTag").unwrap();

    assert_eq!(tag_value(), actual);
}

#[test]
fn test_aws_ec2_tag_load_is_case_insensitive() {
    let loader = instance_tags();
    let actual = loader.get_tag_value("testtag").unwrap();

    assert_eq!(tag_value(), actual);
}

#[test]
fn test_aws_ec2_tag_load_caches_tags() {
    let loader = instance_tags();
    assert_eq!(tag_value(), loader.get_tag_value("TestTag").unwrap());
    assert_eq!(tag_value(), loader.get_tag_value("TestTag").unwrap());
    assert_eq!(tag_value(), loader.get_tag_value("TestTag").unwrap());
    assert_eq!(String::from("my-instance"), loader.get_tag_value("Name").unwrap());
}

#[test]
fn tag_lookup_folds_case_of_both_sides() {
    let loader = instance_tags();
    assert_eq!("my-instance", loader.get_tag_value("NAME").unwrap());
    assert_eq!("test value", loader.get_tag_value("tEsTtAg").unwrap());
}

#[test]
fn tag_lookup_takes_first_match() {
    let loader = AwsEc2TagLoader::from_tags(Some(vec![
        tag(Some("role"), Some("web")),
        tag(Some("Role"), Some("db")),
    ]))
    .unwrap();
    assert_eq!("web", loader.get_tag_value("ROLE").unwrap());
}

#[test]
fn tag_lookup_errors() {
    let loader = AwsEc2TagLoader::from_tags(Some(vec![
        tag(Some("Empty"), None),
        tag(None, Some("keyless")),
    ]))
    .unwrap();
    let err = loader.get_tag_value("Missing").unwrap_err();
    assert!(matches!(err, TagError::NotFound { ref key } if key == "Missing"));
    assert_eq!("Tag with key 'Missing' not found", err.message());
    let err = loader.get_tag_value("empty").unwrap_err();
    assert!(matches!(err, TagError::NoValue { ref key } if key == "empty"));
    assert_eq!("Tag has no value", err.message());
    // A tag without a key reads as having the empty key.
    assert_eq!("keyless", loader.get_tag_value("").unwrap());
    let err = AwsEc2TagLoader::from_tags(None).unwrap_err();
    assert!(matches!(err, TagError::MissingTags));
    assert_eq!("Tags missing from response", err.message());
}

#[test]
fn first_match_positions() {
    let keys: Vec<String> = vec!["a".into(), "b".into(), "a".into()];
    assert_eq!(Some(0), first_match(&keys, &"a".to_string()));
    assert_eq!(Some(1), first_match(&keys, &"b".to_string()));
    assert_eq!(None, first_match(&keys, &"A".to_string()));
    assert_eq!(None, first_match(&Vec::new(), &"a".to_string()));
}

#[test]
fn metadata_url_joins_with_one_slash() {
    assert_eq!(
        "http://host/instance-id",
        AwsEc2MetadataLoader::with_base_url("http://host/").url_for("instance-id")
    );
    assert_eq!(
        "http://host/instance-id",
        AwsEc2MetadataLoader::with_base_url("http://host").url_for("instance-id")
    );
    assert_eq!(
        "http://host/placement/region",
        AwsEc2MetadataLoader::with_base_url("http://host").url_for("//placement/region")
    );
    assert_eq!("/", AwsEc2MetadataLoader::with_base_url("").url_for(""));
}

#[test]
fn metadata_loader_default_endpoint() {
    let loader = AwsEc2MetadataLoader::new();
    assert_eq!(METADATA_BASE_URL, loader.base_url());
    assert_eq!("http://169.254.169.254/latest/meta-data", loader.base_url());
    assert_eq!(
        "http://169.254.169.254/latest/meta-data/instance-id",
        loader.url_for("instance-id")
    );
    let custom = String::from("http://127.0.0.1:1234/");
    assert_eq!("http://127.0.0.1:1234/", AwsEc2MetadataLoader::with_base_url(&custom).base_url());
}

#[test]
fn environment_loader_builds() {
    let _loader = EnvironmentLoader::new();
}

#[test]
fn awsssm_test_ssm_load_parameter() {
    let reply = ParameterReply::Answer { parameter: Some(Some("ssm value".into())) };
    let actual = parameter_value("test.param", reply).unwrap();

    assert_eq!(String::from("ssm value"), actual);
}

#[test]
fn awsssm_test_ssm_load_parameter_not_found() {
    let actual = parameter_value("test.param", ParameterReply::NotFound);

    assert!(actual.is_err());

    match actual {
        Err(err) => assert!(err.message().contains("Parameter not found")),
        _ => assert!(false),
    }
}

#[test]
fn parameter_reply_errors() {
    let err = parameter_value("p", ParameterReply::NotFound).unwrap_err();
    assert!(matches!(err, ParameterError::NotFound { ref name } if name == "p"));
    assert_eq!("Parameter not found 'p'", err.message());
    let err = parameter_value("p", ParameterReply::Failed { message: "timeout".into() }).unwrap_err();
    assert_eq!("Failed to fetch parameter: timeout", err.message());
    let err = parameter_value("p", ParameterReply::Answer { parameter: None }).unwrap_err();
    assert!(matches!(err, ParameterError::MissingParameter));
    assert_eq!("Failed to get parameter", err.message());
    let err = parameter_value("p", ParameterReply::Answer { parameter: Some(None) }).unwrap_err();
    assert!(matches!(err, ParameterError::NoValue));
    assert_eq!("Parameter has no value", err.message());
}
