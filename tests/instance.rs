use ec2_search::instance::{
    filter_instances, name, output_format, search, Instance, OutputFormat, SearchQueryOpt,
};
use ec2_search::utils::Tag;

fn sample() -> Instance {
    Instance {
        id: "i-2342545".to_string(),
        name: "api".to_string(),
        instance_type: "t3.micro".to_string(),
        status: "running".to_string(),
        az: "ap-northeast-1".to_string(),
        lifecycle: "normal".to_string(),
        private_ip: "192.168.0.1".to_string(),
        private_dns: "192.168.0.1.ap-northeast-1".to_string(),
        public_ip: None,
        public_dns: None,
        tags: vec![Tag {
            key: "env".to_string(),
            value: Some("production".to_string()),
        }],
    }
}

#[test]
fn test_search() {
    let i = sample();
    assert_eq!(
        search(
            &i,
            &SearchQueryOpt {
                query: "234254".to_string()
            }
        ),
        true
    );
    assert_eq!(
        search(
            &i,
            &SearchQueryOpt {
                query: "api,test".to_string()
            }
        ),
        true
    );
    assert_eq!(
        search(
            &i,
            &SearchQueryOpt {
                query: "test".to_string()
            }
        ),
        false
    );
    assert_eq!(
        search(
            &i,
            &SearchQueryOpt {
                query: "192.168".to_string()
            }
        ),
        true
    );
    assert_eq!(
        search(
            &i,
            &SearchQueryOpt {
                query: "server,test".to_string()
            }
        ),
        false
    );
    assert_eq!(
        search(
            &i,
            &SearchQueryOpt {
                query: "production".to_string()
            }
        ),
        true
    );
}

#[test]
fn test_get_name_from_tag() {
    let tags = vec![Tag {
        key: "Name".to_string(),
        value: Some("api".to_string()),
    }];
    assert_eq!(name(&tags), "api".to_string());
}

#[test]
fn name_takes_first_name_tag() {
    let tags = vec![
        Tag { key: "Env".to_string(), value: Some("x".to_string()) },
        Tag { key: "Name".to_string(), value: Some("first".to_string()) },
        Tag { key: "Name".to_string(), value: Some("second".to_string()) },
    ];
    assert_eq!(name(&tags), "first");
    assert_eq!(name(&[]), "");
    let no_value = vec![Tag { key: "Name".to_string(), value: None }];
    assert_eq!(name(&no_value), "");
}

#[test]
fn filter_instances_by_query() {
    let mut other = sample();
    other.id = "i-999".to_string();
    other.name = "db".to_string();
    other.private_dns = "10.0.0.1".to_string();
    other.tags = vec![];
    let kept = filter_instances(
        vec![sample(), other],
        &SearchQueryOpt { query: "db,zzz".to_string() },
    );
    assert_eq!(kept.len(), 1);
    assert_eq!(kept[0].id, "i-999");
}

#[test]
fn output_formats() {
    assert!(matches!(output_format(&None), Ok(OutputFormat::Table)));
    assert!(matches!(output_format(&Some("name".to_string())), Ok(OutputFormat::Name)));
    assert!(matches!(output_format(&Some("wide".to_string())), Ok(OutputFormat::Wide)));
    match output_format(&Some("json".to_string())) {
        Err(e) => assert_eq!(e, "json"),
        Ok(_) => panic!("json is not a known format"),
    }
}
