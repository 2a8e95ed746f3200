use ec2_search::text::{split_terms, str_contains};
use ec2_search::utils::{
    get_values, matches_resource, name_query, narrow_to_one, seen_tag_keys, split, tag_column,
    Tag,
};
use ec2_search::autoscaling::AutoScalingGroup;

fn tag(key: &str, value: Option<&str>) -> Tag {
    Tag {
        key: key.to_string(),
        value: value.map(|v| v.to_string()),
    }
}

fn strings(items: &[&str]) -> Vec<String> {
    items.iter().map(|s| s.to_string()).collect()
}

#[test]
fn test_name_query() {
    assert_eq!(
        name_query(&Some("test".to_string()), &None),
        Some(vec!["*test*".to_string()])
    );
    assert_eq!(
        name_query(&Some("api,test".to_string()), &None),
        Some(vec!["*api*".to_string(), "*test*".to_string()])
    );
    assert_eq!(
        name_query(&None, &Some("api".to_string())),
        Some(vec!["api".to_string()])
    );
}

#[test]
fn name_query_absent_and_combined() {
    assert_eq!(name_query(&None, &None), None);
    assert_eq!(
        name_query(&Some("a".to_string()), &Some("b,c".to_string())),
        Some(strings(&["*a*", "b", "c"]))
    );
}

#[test]
fn split_keeps_empty_pieces() {
    assert_eq!(split("", true), strings(&[""]));
    assert_eq!(split("a,,b,", true), strings(&["a", "", "b", ""]));
    assert_eq!(split("a,b", false), strings(&["*a*", "*b*"]));
    assert_eq!(split_terms("x y,z"), strings(&["x y", "z"]));
}

#[test]
fn contains_is_substring() {
    assert!(str_contains("test-api", "api"));
    assert!(str_contains("abc", ""));
    assert!(str_contains("", ""));
    assert!(!str_contains("ap", "api"));
    assert!(!str_contains("API", "api"));
    assert!(str_contains("héllo wörld", "ö"));
}

#[test]
fn test_get_values() {
    let tags = vec![
        Tag {
            key: "Name".to_string(),
            value: Some("api".to_string()),
        },
        Tag {
            key: "Env".to_string(),
            value: Some("staging".to_string()),
        },
        Tag {
            key: "aws:autoscaling:groupName".to_string(),
            value: Some("spot-api".to_string()),
        },
        Tag {
            key: "ignore-monitor".to_string(),
            value: None,
        },
    ];
    assert_eq!(
        get_values(&tags, &vec!["Name".to_string()]),
        vec!["api".to_string()],
    );
    assert_eq!(
        get_values(&tags, &vec!["Env".to_string()]),
        vec!["staging".to_string()],
    );
    assert_eq!(
        get_values(&tags, &vec!["Env".to_string(), "Name".to_string()]),
        vec!["staging".to_string(), "api".to_string()]
    );
    assert_eq!(get_values(&tags, &vec!["env".to_string()]), vec![""]);
    assert_eq!(
        get_values(&tags, &vec!["ignore-monitor".to_string()]),
        vec![""]
    );
}

#[test]
fn projection_scenario() {
    let tags = vec![tag("Name", Some("api")), tag("Env", Some("staging"))];
    assert_eq!(get_values(&tags, &strings(&["Env", "Name"])), strings(&["staging", "api"]));
    assert_eq!(get_values(&tags, &strings(&["env"])), strings(&[""]));
}

#[test]
fn projection_length_matches_keys() {
    let none: Vec<Tag> = vec![];
    assert_eq!(get_values(&none, &strings(&["a", "b", "c"])), strings(&["", "", ""]));
    assert_eq!(get_values(&none, &[]), Vec::<String>::new());
    let tags = vec![tag("a", Some("1"))];
    assert_eq!(get_values(&tags, &strings(&["a", "a"])), strings(&["1", "1"]));
}

#[test]
fn projection_last_duplicate_wins() {
    let tags = vec![tag("k", Some("first")), tag("k", Some("second"))];
    assert_eq!(get_values(&tags, &strings(&["k"])), strings(&["second"]));
}

#[test]
fn projection_is_idempotent() {
    let tags = vec![tag("Name", Some("api")), tag("Env", None), tag("Team", Some("core"))];
    let keys = strings(&["Team", "Env", "Missing", "Name"]);
    let first = get_values(&tags, &keys);
    let again = get_values(&tags, &keys);
    assert_eq!(first, again);
    let projected: Vec<Tag> = keys
        .iter()
        .zip(first.iter())
        .map(|(k, v)| tag(k, Some(v)))
        .collect();
    assert_eq!(get_values(&projected, &keys), first);
}

#[test]
fn matcher_fails_open_on_empty_identifier() {
    let fields = strings(&["", "other"]);
    assert!(matches_resource(&Some("zzz".to_string()), &fields, &[]));
    assert!(matches_resource(&Some("zzz".to_string()), &[], &[]));
    assert!(matches_resource(&None, &strings(&["name"]), &[]));
}

#[test]
fn matcher_comma_is_or() {
    let fields = strings(&["test-api", "id-1"]);
    let tags = vec![tag("env", Some("prod"))];
    for (a, b) in [("api", "zzz"), ("zzz", "prod"), ("zzz", "yyy"), ("id-", "env")] {
        let joined = format!("{},{}", a, b);
        let either = matches_resource(&Some(a.to_string()), &fields, &tags)
            || matches_resource(&Some(b.to_string()), &fields, &tags);
        assert_eq!(matches_resource(&Some(joined), &fields, &tags), either);
    }
}

#[test]
fn matcher_scenarios() {
    let none: Vec<Tag> = vec![];
    assert!(matches_resource(&Some("api".to_string()), &strings(&["test-api"]), &none));
    assert!(!matches_resource(&Some("api".to_string()), &strings(&["ap"]), &none));
    let tags = vec![tag("tag", Some("test"))];
    assert!(matches_resource(&Some("test".to_string()), &strings(&["ap"]), &tags));
    let no_value = vec![tag("tag", None)];
    assert!(!matches_resource(&Some("test".to_string()), &strings(&["ap"]), &no_value));
    assert!(!matches_resource(&Some("Api".to_string()), &strings(&["test-api"]), &none));
}

fn group(name: &str, tags: Vec<Tag>) -> AutoScalingGroup {
    AutoScalingGroup {
        name: name.to_string(),
        instances: vec![],
        min_capacity: None,
        max_capacity: None,
        desired_capacity: None,
        tags,
    }
}

#[test]
fn all_tag_columns_keep_first_occurrence_order() {
    let groups = vec![
        group("a", vec![tag("Name", Some("a")), tag("Env", Some("x"))]),
        group("b", vec![tag("Team", None), tag("Name", Some("b"))]),
        group("c", vec![tag("Env", Some("y")), tag("Cost", Some("1"))]),
    ];
    let seen = seen_tag_keys(&groups);
    assert_eq!(seen, strings(&["Name", "Env", "Team", "Name", "Env", "Cost"]));
    assert_eq!(
        tag_column(true, &None, seen.clone()),
        strings(&["Name", "Env", "Team", "Cost"])
    );
    assert_eq!(
        tag_column(false, &Some("Env,Name".to_string()), seen.clone()),
        strings(&["Env", "Name"])
    );
    assert_eq!(tag_column(false, &None, seen), Vec::<String>::new());
}

#[test]
fn narrowing_needs_exactly_one() {
    assert_eq!(narrow_to_one(vec![7]), Some(7));
    assert_eq!(narrow_to_one(Vec::<i32>::new()), None);
    assert_eq!(narrow_to_one(vec![1, 2]), None);
}
