//! Target groups: which ones a query keeps, the load-balancer names read from
//! their ARNs, and the tags fetched for them in batches.
use crate::text::{chars_of, find_char_from, find_from, first_at, first_char_at};
use crate::utils::{matches_query, matches_resource, Tag, Tagged};
use vstd::prelude::*;

verus! {

/// The target-group views.
pub enum TargetGroupOpt {
    Info(SearchQueryOpt),
    LoadBalancerArn(SearchQueryOpt),
    Port(SearchQueryOpt),
    Health(SearchQueryOpt),
}

/// A query on target-group names and load-balancer ARNs, with the tag
/// columns to show.
pub struct SearchQueryOpt {
    pub query: Option<String>,
    pub tag_columns: Option<String>,
    pub show_all_tags: bool,
}

/// A target group as listed.
pub struct TargetGroup {
    pub name: String,
    pub port: i32,
    pub arn: String,
    pub target_type: String,
    /// The names of its load balancers, read from `lb_arn`.
    pub lb: Option<Vec<String>>,
    pub lb_arn: Option<Vec<String>>,
    pub tags: Vec<Tag>,
}

impl Tagged for TargetGroup {
    open spec fn tag_list(&self) -> Seq<Tag> {
        self.tags@
    }

    fn tags(&self) -> (r: &[Tag]) {
        self.tags.as_slice()
    }
}

/// The tags of one resource, as a tag lookup returns them.
pub struct TagDescription {
    pub resource_arn: Option<String>,
    pub tags: Vec<Tag>,
}

/// How many ARNs one tag lookup takes.
pub const TAG_BATCH: usize = 20;

/// The fields a query is matched against: the group's name, which identifies
/// it, then the ARNs of its load balancers.
pub open spec fn group_fields(name: Seq<char>, lb_arn: Option<Seq<Seq<char>>>) -> Seq<Seq<char>> {
    seq![name] + match lb_arn {
        Some(a) => a,
        None => Seq::<Seq<char>>::empty(),
    }
}

/// Whether `query` keeps the target group named `tg_name` whose load
/// balancers have the ARNs `lb_arn`.
pub fn search_name(query: &Option<String>, tg_name: &str, lb_arn: &Option<Vec<String>>) -> (r:
    bool)
    ensures
        r == matches_query(
            query.deep_view(),
            group_fields(tg_name@, lb_arn.deep_view()),
            Seq::<Tag>::empty(),
        ),
{
    let mut fields: Vec<String> = Vec::new();
    fields.push(tg_name.to_owned());
    if let Some(arns) = lb_arn {
        let mut k: usize = 0;
        while k < arns.len()
            invariant
                k <= arns@.len(),
                fields.deep_view() == seq![tg_name@] + arns.deep_view().take(k as int),
            decreases arns@.len() - k,
        {
            let ghost before = fields.deep_view();
            fields.push(arns[k].clone());
            assert(arns.deep_view().take(k + 1) =~= arns.deep_view().take(k as int).push(
                arns@[k as int]@,
            ));
            assert(fields.deep_view() =~= before.push(arns@[k as int]@));
            k += 1;
        }
        assert(arns.deep_view().take(arns@.len() as int) =~= arns.deep_view());
    } else {
        assert(fields.deep_view() =~= seq![tg_name@] + Seq::<Seq<char>>::empty());
    }
    let no_tags: Vec<Tag> = Vec::new();
    assert(no_tags@ =~= Seq::<Tag>::empty());
    matches_resource(query, fields.as_slice(), no_tags.as_slice())
}

/// Whether `query` keeps the target group `t`.
pub open spec fn keeps(query: Option<Seq<char>>, t: TargetGroup) -> bool {
    matches_query(query, group_fields(t.name@, t.lb_arn.deep_view()), Seq::<Tag>::empty())
}

/// The target groups that `query` keeps, in their order.
pub fn filter_target_groups(tgs: Vec<TargetGroup>, query: &Option<String>) -> (r: Vec<
    TargetGroup,
>)
    ensures
        r@ == tgs@.filter(|t: TargetGroup| keeps(query.deep_view(), t)),
{
    let ghost all = tgs@;
    let ghost pred = |t: TargetGroup| keeps(query.deep_view(), t);
    let mut r: Vec<TargetGroup> = Vec::new();
    for t in it: tgs.into_iter()
        invariant
            it.seq() == all,
            pred == (|t: TargetGroup| keeps(query.deep_view(), t)),
            r@ == all.take(it.index()).filter(pred),
    {
        let ghost i = it.index();
        proof {
            reveal(Seq::filter);
        }
        assert(all.take(i + 1).drop_last() =~= all.take(i));
        assert(all.take(i + 1).last() == t);
        if search_name(query, t.name.as_str(), &t.lb_arn) {
            r.push(t);
        }
    }
    assert(all.take(all.len() as int) =~= all);
    r
}

/// The name after `marker` in `arn`: the characters from the end of the
/// first occurrence of `marker` up to the next `/`, or empty when no `/`
/// follows; `None` when `marker` does not occur.
pub open spec fn name_after(arn: Seq<char>, marker: Seq<char>) -> Option<Seq<char>> {
    match first_at(arn, marker, 0) {
        None => None,
        Some(i) => {
            let start = i + marker.len();
            match first_char_at(arn, '/', start) {
                Some(j) => Some(arn.subrange(start, j)),
                None => Some(Seq::<char>::empty()),
            }
        },
    }
}

/// The load-balancer name in an ARN: the path segment after
/// `loadbalancer/app/`, else after `loadbalancer/net/`; empty for any other
/// ARN.
pub open spec fn lb_name(arn: Seq<char>) -> Seq<char> {
    match name_after(arn, "loadbalancer/app/"@) {
        Some(n) => n,
        None => match name_after(arn, "loadbalancer/net/"@) {
            Some(n) => n,
            None => Seq::<char>::empty(),
        },
    }
}

fn name_after_exec(arn: &str, chars: &Vec<char>, marker: &str) -> (r: Option<String>)
    requires
        chars@ == arn@,
    ensures
        r.deep_view() == name_after(arn@, marker@),
{
    let m = chars_of(marker);
    let n = chars.len();
    match find_from(chars, &m, 0) {
        None => None,
        Some(i) => {
            let start = i + m.len();
            match find_char_from(chars, '/', start) {
                Some(j) => Some(arn.substring_char(start, j).to_owned()),
                None => Some(String::new()),
            }
        },
    }
}

/// The load-balancer name that a load-balancer ARN carries.
pub fn extract_lb_name(lb_arn: &str) -> (r: String)
    ensures
        r@ == lb_name(lb_arn@),
{
    let chars = chars_of(lb_arn);
    match name_after_exec(lb_arn, &chars, "loadbalancer/app/") {
        Some(n) => n,
        None => match name_after_exec(lb_arn, &chars, "loadbalancer/net/") {
            Some(n) => n,
            None => String::new(),
        },
    }
}

/// The load-balancer names of a list of load-balancer ARNs, one per ARN.
pub fn lb_names(lb_arn: &Option<Vec<String>>) -> (r: Option<Vec<String>>)
    ensures
        r.deep_view() == match lb_arn.deep_view() {
            Some(a) => Some(a.map_values(|x: Seq<char>| lb_name(x))),
            None => None,
        },
{
    match lb_arn {
        None => None,
        Some(arns) => {
            let mut names: Vec<String> = Vec::new();
            let mut k: usize = 0;
            while k < arns.len()
                invariant
                    k <= arns@.len(),
                    names@.len() == k,
                    forall|m: int| 0 <= m < k ==> #[trigger] names@[m]@ == lb_name(arns@[m]@),
                decreases arns@.len() - k,
            {
                names.push(extract_lb_name(arns[k].as_str()));
                k += 1;
            }
            assert(names.deep_view() =~= arns.deep_view().map_values(|x: Seq<char>| lb_name(x)));
            Some(names)
        },
    }
}

/// The ARNs of the target groups, in order.
pub open spec fn arns_of(tgs: Seq<TargetGroup>) -> Seq<Seq<char>> {
    tgs.map_values(|t: TargetGroup| t.arn@)
}

/// The ARNs of `tgs`, in order, cut into consecutive batches for the tag
/// lookup: every batch but the last holds `TAG_BATCH` ARNs, the last at most
/// that many, and none is empty.
pub fn tag_batches(tgs: &[TargetGroup]) -> (r: Vec<Vec<String>>)
    ensures
        r.deep_view().flatten() == arns_of(tgs@),
        forall|b: int|
            0 <= b < r.deep_view().len() ==> 0 < (#[trigger] r.deep_view()[b]).len() <= TAG_BATCH,
        forall|b: int|
            0 <= b < r.deep_view().len() - 1 ==> (#[trigger] r.deep_view()[b]).len() == TAG_BATCH,
{
    let n = tgs.len();
    let ghost arns = arns_of(tgs@);
    let mut r: Vec<Vec<String>> = Vec::new();
    let mut start: usize = 0;
    assert(arns.take(0) =~= Seq::<Seq<char>>::empty());
    assert(r.deep_view() =~= Seq::<Seq<Seq<char>>>::empty());
    while start < n
        invariant
            n == tgs@.len(),
            arns == arns_of(tgs@),
            start <= n,
            r.deep_view().flatten() == arns.take(start as int),
            forall|b: int|
                0 <= b < r.deep_view().len() ==> 0 < (#[trigger] r.deep_view()[b]).len()
                    <= TAG_BATCH,
            forall|b: int|
                0 <= b < r.deep_view().len() - 1 ==> (#[trigger] r.deep_view()[b]).len()
                    == TAG_BATCH,
            start < n && r.deep_view().len() > 0 ==> r.deep_view().last().len() == TAG_BATCH,
        decreases n - start,
    {
        let end = if n - start > TAG_BATCH {
            start + TAG_BATCH
        } else {
            n
        };
        let mut batch: Vec<String> = Vec::new();
        let mut k = start;
        assert(batch.deep_view() =~= arns.subrange(start as int, start as int));
        while k < end
            invariant
                start <= k <= end <= n,
                n == tgs@.len(),
                arns == arns_of(tgs@),
                batch.deep_view() == arns.subrange(start as int, k as int),
            decreases end - k,
        {
            let ghost before = batch.deep_view();
            batch.push(tgs[k].arn.clone());
            assert(batch.deep_view() =~= before.push(tgs@[k as int].arn@));
            assert(arns.subrange(start as int, k + 1) =~= arns.subrange(start as int, k as int).push(
                arns[k as int],
            ));
            k += 1;
        }
        let ghost before = r.deep_view();
        let ghost piece = batch.deep_view();
        r.push(batch);
        assert(r.deep_view() =~= before.push(piece));
        proof {
            before.lemma_flatten_push(piece);
        }
        assert(arns.take(end as int) =~= arns.take(start as int) + arns.subrange(
            start as int,
            end as int,
        ));
        start = end;
    }
    assert(arns.take(n as int) =~= arns);
    r
}

/// The tags that the first description of `arn` gives, if any describes it.
pub open spec fn described_tags(descriptions: Seq<TagDescription>, arn: Seq<char>) -> Option<
    Seq<Tag>,
>
    decreases descriptions.len(),
{
    if descriptions.len() == 0 {
        None
    } else if descriptions[0].resource_arn.deep_view() == Some(arn) {
        Some(descriptions[0].tags@)
    } else {
        described_tags(descriptions.drop_first(), arn)
    }
}

fn find_description(descriptions: &[TagDescription], arn: &String) -> (r: Option<usize>)
    ensures
        match r {
            Some(k) => k < descriptions@.len() && described_tags(descriptions@, arn@) == Some(
                descriptions@[k as int].tags@,
            ),
            None => described_tags(descriptions@, arn@) is None,
        },
{
    let mut k: usize = 0;
    assert(descriptions@.subrange(0, descriptions@.len() as int) =~= descriptions@);
    while k < descriptions.len()
        invariant
            k <= descriptions@.len(),
            described_tags(descriptions@, arn@) == described_tags(
                descriptions@.subrange(k as int, descriptions@.len() as int),
                arn@,
            ),
        decreases descriptions@.len() - k,
    {
        let ghost rest = descriptions@.subrange(k as int, descriptions@.len() as int);
        assert(rest[0] == descriptions@[k as int]);
        assert(rest.drop_first() =~= descriptions@.subrange(k + 1, descriptions@.len() as int));
        let hit = match &descriptions[k].resource_arn {
            Some(a) => *a == *arn,
            None => false,
        };
        if hit {
            return Some(k);
        }
        k += 1;
    }
    None
}

fn copy_tags(tags: &Vec<Tag>) -> (r: Vec<Tag>)
    ensures
        r@ == tags@,
{
    let mut r: Vec<Tag> = Vec::new();
    let mut j: usize = 0;
    while j < tags.len()
        invariant
            j <= tags@.len(),
            r@ == tags@.take(j as int),
        decreases tags@.len() - j,
    {
        let t = &tags[j];
        let value = match &t.value {
            Some(v) => Some(v.clone()),
            None => None,
        };
        r.push(Tag { key: t.key.clone(), value });
        assert(tags@.take(j + 1) =~= tags@.take(j as int).push(tags@[j as int]));
        j += 1;
    }
    assert(tags@.take(tags@.len() as int) =~= tags@);
    r
}

/// `after` is `before` with its tags replaced by `found`, when tags were found.
pub open spec fn tagged(before: TargetGroup, after: TargetGroup, found: Option<Seq<Tag>>) -> bool {
    &&& after.name == before.name
    &&& after.port == before.port
    &&& after.arn == before.arn
    &&& after.target_type == before.target_type
    &&& after.lb == before.lb
    &&& after.lb_arn == before.lb_arn
    &&& after.tags@ == match found {
        Some(tags) => tags,
        None => before.tags@,
    }
}

/// Gives each target group the tags of the first description of its ARN;
/// one that no description names keeps its tags. Order and number stay.
pub fn set_tags(tgs: Vec<TargetGroup>, descriptions: &[TagDescription]) -> (r: Vec<TargetGroup>)
    ensures
        r@.len() == tgs@.len(),
        forall|i: int|
            0 <= i < r@.len() ==> tagged(
                tgs@[i],
                #[trigger] r@[i],
                described_tags(descriptions@, tgs@[i].arn@),
            ),
{
    let ghost all = tgs@;
    let mut r: Vec<TargetGroup> = Vec::new();
    for t in it: tgs.into_iter()
        invariant
            it.seq() == all,
            r@.len() == it.index(),
            forall|m: int|
                0 <= m < r@.len() ==> tagged(
                    all[m],
                    #[trigger] r@[m],
                    described_tags(descriptions@, all[m].arn@),
                ),
    {
        let ghost i = it.index();
        assert(t == all[i]);
        let mut t = t;
        if let Some(k) = find_description(descriptions, &t.arn) {
            t.tags = copy_tags(&descriptions[k].tags);
        }
        r.push(t);
    }
    r
}

} // verus!
