//! Auto Scaling groups: which ones a query keeps.
use crate::utils::{matches_query, matches_resource, Tag, Tagged};
use vstd::prelude::*;

verus! {

/// The Auto Scaling group views.
pub enum AutoScalingGroupOpt {
    Info(SearchInfoQueryOpt),
    Activities(SearchQueryOpt),
    Instances(SearchQueryOpt),
}

/// A query on group names and tags.
pub struct SearchQueryOpt {
    pub query: Option<String>,
}

/// A query on group names and tags, with the tag columns to show.
pub struct SearchInfoQueryOpt {
    pub query: Option<String>,
    pub tag_columns: Option<String>,
    pub show_all_tags: bool,
}

/// An instance of a group, each field empty where the listing left it out.
pub struct GroupInstance {
    pub instance_id: String,
    pub lifecycle_state: String,
    pub instance_type: String,
    pub availability_zone: String,
    pub health_status: String,
}

/// An Auto Scaling group as listed.
pub struct AutoScalingGroup {
    pub name: String,
    pub instances: Vec<GroupInstance>,
    pub min_capacity: Option<i32>,
    pub max_capacity: Option<i32>,
    pub desired_capacity: Option<i32>,
    pub tags: Vec<Tag>,
}

impl Tagged for AutoScalingGroup {
    open spec fn tag_list(&self) -> Seq<Tag> {
        self.tags@
    }

    fn tags(&self) -> (r: &[Tag]) {
        self.tags.as_slice()
    }
}

/// Whether `query` keeps the group named `name` with tags `tags`: the name
/// identifies it, and terms are looked for in it and in the tags.
pub fn search_name(query: &Option<String>, name: &str, tags: &[Tag]) -> (r: bool)
    ensures
        r == matches_query(query.deep_view(), seq![name@], tags@),
{
    let mut fields: Vec<String> = Vec::new();
    fields.push(name.to_owned());
    assert(fields.deep_view() =~= seq![name@]);
    matches_resource(query, fields.as_slice(), tags)
}

/// Whether `query` keeps the group `g`.
pub open spec fn keeps(query: Option<Seq<char>>, g: AutoScalingGroup) -> bool {
    matches_query(query, seq![g.name@], g.tags@)
}

/// The groups that `query` keeps, in their order.
pub fn filter_groups(groups: Vec<AutoScalingGroup>, query: &Option<String>) -> (r: Vec<
    AutoScalingGroup,
>)
    ensures
        r@ == groups@.filter(|g: AutoScalingGroup| keeps(query.deep_view(), g)),
{
    let ghost all = groups@;
    let ghost pred = |g: AutoScalingGroup| keeps(query.deep_view(), g);
    let mut r: Vec<AutoScalingGroup> = Vec::new();
    for g in it: groups.into_iter()
        invariant
            it.seq() == all,
            pred == (|g: AutoScalingGroup| keeps(query.deep_view(), g)),
            r@ == all.take(it.index()).filter(pred),
    {
        let ghost i = it.index();
        proof {
            reveal(Seq::filter);
        }
        assert(all.take(i + 1).drop_last() =~= all.take(i));
        assert(all.take(i + 1).last() == g);
        if search_name(query, g.name.as_str(), g.tags.as_slice()) {
            r.push(g);
        }
    }
    assert(all.take(all.len() as int) =~= all);
    r
}

} // verus!
