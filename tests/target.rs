use lambda_deploy::{
    parse_arn, parse_arn_or_key, resolve_target, split_fields, toml_nesting_within_limit,
    TargetError, MAX_TOML_NESTING,
};

fn pair(r: Result<(String, String), TargetError>) -> (String, String) {
    r.expect("expected a resolved target")
}

const ARN: &str = "arn:aws:lambda:eu-north-1:1234:function:MyLambdaFunc";

#[test]
fn arn_gives_region_and_name() {
    assert_eq!(pair(parse_arn(ARN)), ("eu-north-1".to_string(), "MyLambdaFunc".to_string()));
}

#[test]
fn arn_with_wrong_field_count_is_rejected() {
    assert_eq!(parse_arn("arn:aws:lambda:eu-north-1:1234:function"), Err(TargetError::MalformedArn));
    assert_eq!(parse_arn("a:b:c:d:e:f:g:h"), Err(TargetError::MalformedArn));
    assert_eq!(parse_arn(""), Err(TargetError::MalformedArn));
}

#[test]
fn empty_fields_count() {
    assert_eq!(pair(parse_arn("::::::")), (String::new(), String::new()));
    assert_eq!(split_fields(""), vec![String::new()]);
    assert_eq!(split_fields("a::b:"), vec!["a", "", "b", ""]);
}

#[test]
fn key_is_looked_up_in_config() {
    let config = format!("[arns]\nprod = \"{}\"\n", ARN);
    assert_eq!(
        pair(parse_arn_or_key("prod", Some(&config))),
        ("eu-north-1".to_string(), "MyLambdaFunc".to_string())
    );
}

#[test]
fn unknown_key_falls_back_to_raw() {
    let config = format!("[arns]\nprod = \"{}\"\n", ARN);
    assert_eq!(parse_arn_or_key("staging", Some(&config)), Err(TargetError::MalformedArn));
    assert_eq!(parse_arn_or_key("prod", None), Err(TargetError::MalformedArn));
}

#[test]
fn full_arn_ignores_config() {
    let config = "this is = = not toml";
    assert_eq!(
        pair(parse_arn_or_key(ARN, Some(config))),
        ("eu-north-1".to_string(), "MyLambdaFunc".to_string())
    );
}

#[test]
fn invalid_config_is_reported() {
    assert_eq!(parse_arn_or_key("prod", Some("[arns\nprod = ")), Err(TargetError::InvalidConfig));
}

#[test]
fn configured_value_that_is_not_an_arn() {
    let config = "[arns]\nprod = \"nope\"\n";
    assert_eq!(parse_arn_or_key("prod", Some(config)), Err(TargetError::MalformedArn));
}

#[test]
fn resolve_prefers_the_entry() {
    assert_eq!(
        pair(resolve_target("prod", Some("arn:aws:lambda:us-east-1:1:function:F"))),
        ("us-east-1".to_string(), "F".to_string())
    );
    assert_eq!(resolve_target("prod", None), Err(TargetError::MalformedArn));
}

#[test]
fn deeply_nested_config_is_refused() {
    let deep = format!("a = {}", "[".repeat(1_000_000));
    assert_eq!(parse_arn_or_key("prod", Some(&deep)), Err(TargetError::InvalidConfig));
    let dotted = format!("{} = 1", vec!["k"; 200].join("."));
    assert_eq!(parse_arn_or_key("prod", Some(&dotted)), Err(TargetError::InvalidConfig));
    let header = format!("[{}]\nx = 1\n", vec!["k"; 60].join("."));
    assert!(!toml_nesting_within_limit(&header));
}

#[test]
fn nesting_at_the_limit_is_read() {
    let depth = MAX_TOML_NESTING as usize;
    let config = format!(
        "[arns]\nprod = \"arn:aws:lambda:us-west-2:9:function:G\"\nx = {}{}\n",
        "[".repeat(depth),
        "]".repeat(depth)
    );
    assert!(toml_nesting_within_limit(&config));
    assert_eq!(
        pair(parse_arn_or_key("prod", Some(&config))),
        ("us-west-2".to_string(), "G".to_string())
    );
    let deeper = format!("x = {}{}\n", "[".repeat(depth + 1), "]".repeat(depth + 1));
    assert!(!toml_nesting_within_limit(&deeper));
    assert_eq!(parse_arn_or_key("prod", Some(&deeper)), Err(TargetError::InvalidConfig));
}

fn large_flat_config() -> String {
    let mut config = String::new();
    config.push_str(&format!("# {}\n", ".".repeat(500)));
    for i in 0..300 {
        config.push_str(&format!("[t{}]\nv = 1.5\nnote = \"a.b.c [x] {{y}}\"\n", i));
    }
    config.push_str(&format!("[meta]\ntext = \"{}\"\n", "[{.".repeat(200)));
    config.push_str(&format!("lit = '{}'\n", "[[..".repeat(100)));
    config.push_str(&format!("long = \"\"\"\n\"\" {} \\\" \n\"\"\"\n", "[.".repeat(100)));
    config.push_str(&format!("[arns]\nprod = \"{}\"\nodd = \"nope\"\n", ARN));
    config
}

#[test]
fn large_flat_config_is_read() {
    let config = large_flat_config();
    assert!(toml_nesting_within_limit(&config));
    assert_eq!(
        pair(parse_arn_or_key("prod", Some(&config))),
        ("eu-north-1".to_string(), "MyLambdaFunc".to_string())
    );
    assert_eq!(parse_arn_or_key("staging", Some(&config)), Err(TargetError::MalformedArn));
    assert_eq!(parse_arn_or_key("odd", Some(&config)), Err(TargetError::MalformedArn));
}

#[test]
fn string_quotes_are_followed_by_the_scan() {
    // brackets hidden in strings and comments do not count
    assert!(toml_nesting_within_limit(&format!("a = \"\\\"{}\"\n", "[".repeat(100))));
    assert!(toml_nesting_within_limit(&format!("a = '''x''''' # {}\n", "[".repeat(100))));
    // a multi-line string closed by five quotes leaves the rest of the line outside it
    let after_close = format!("a = \"\"\"x\"\"\"\"\" ,{}\n", "[".repeat(100));
    assert!(!toml_nesting_within_limit(&after_close));
    // an empty string is closed at once
    assert!(!toml_nesting_within_limit(&format!("a = \"\"{}\n", "[".repeat(100))));
}
