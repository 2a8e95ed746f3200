use ec2_search::autoscaling::{filter_groups, search_name, AutoScalingGroup};
use ec2_search::utils::Tag;

#[test]
fn autoscaling_test_search_name() {
    assert_eq!(
        search_name(&Some("api".to_string()), &"aa".to_string(), &vec![]),
        false
    );

    assert_eq!(
        search_name(
            &Some("api,test".to_string()),
            &"test-api".to_string(),
            &vec![]
        ),
        true
    );
    assert_eq!(
        search_name(&Some("api".to_string()), &"ap".to_string(), &vec![]),
        false
    );
    assert_eq!(
        search_name(
            &Some("test".to_string()),
            &"ap".to_string(),
            &vec![Tag {
                key: "test".to_string(),
                value: None
            }]
        ),
        true
    );
    assert_eq!(
        search_name(
            &Some("test".to_string()),
            &"ap".to_string(),
            &vec![Tag {
                key: "tag".to_string(),
                value: Some("test".to_string())
            }]
        ),
        true
    );
}

#[test]
fn group_without_name_is_kept() {
    assert!(search_name(&Some("zzz".to_string()), "", &[]));
    assert!(search_name(&None, "anything", &[]));
}

fn group(name: &str) -> AutoScalingGroup {
    AutoScalingGroup {
        name: name.to_string(),
        instances: vec![],
        min_capacity: Some(1),
        max_capacity: Some(3),
        desired_capacity: Some(2),
        tags: vec![],
    }
}

#[test]
fn filter_keeps_matching_groups_in_order() {
    let groups = vec![group("web-1"), group("db"), group(""), group("web-2")];
    let kept: Vec<String> = filter_groups(groups, &Some("web".to_string()))
        .into_iter()
        .map(|g| g.name)
        .collect();
    assert_eq!(kept, vec!["web-1", "", "web-2"]);
    let all = filter_groups(vec![group("a"), group("b")], &None);
    assert_eq!(all.len(), 2);
}
