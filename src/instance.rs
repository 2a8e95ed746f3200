//! EC2 instances: which ones a query keeps, the name their tags give them,
//! and the output formats of the info view.
use crate::utils::{matches_query, matches_resource, value_text, Tag, Tagged};
use vstd::prelude::*;

verus! {

/// The instance views.
pub enum InstanceOpt {
    InstanceIds(SearchQueryOpt),
    Ips(SearchQueryOpt),
    DnsName(SearchQueryOpt),
    Info(SearchInfoQueryOpt),
}

/// A query on instance names, ids, private DNS names and tags.
pub struct SearchQueryOpt {
    pub query: String,
}

/// A query with the output format and the tag columns to show.
pub struct SearchInfoQueryOpt {
    pub query: String,
    pub output: Option<String>,
    pub tag_columns: Option<String>,
    pub show_all_tags: bool,
}

/// An instance as listed, each field empty where the listing left it out.
pub struct Instance {
    pub id: String,
    pub name: String,
    pub instance_type: String,
    pub status: String,
    pub az: String,
    pub lifecycle: String,
    pub private_ip: String,
    pub public_ip: Option<String>,
    pub private_dns: String,
    pub public_dns: Option<String>,
    pub tags: Vec<Tag>,
}

impl Tagged for Instance {
    open spec fn tag_list(&self) -> Seq<Tag> {
        self.tags@
    }

    fn tags(&self) -> (r: &[Tag]) {
        self.tags.as_slice()
    }
}

/// The fields a query is matched against: the id, which identifies the
/// instance, its name and its private DNS name.
pub open spec fn instance_fields(i: Instance) -> Seq<Seq<char>> {
    seq![i.id@, i.name@, i.private_dns@]
}

/// Whether the query of `opt` keeps instance `i`.
pub fn search(i: &Instance, opt: &SearchQueryOpt) -> (r: bool)
    ensures
        r == matches_query(Some(opt.query@), instance_fields(*i), i.tags@),
{
    let mut fields: Vec<String> = Vec::new();
    fields.push(i.id.clone());
    fields.push(i.name.clone());
    fields.push(i.private_dns.clone());
    assert(fields.deep_view() =~= instance_fields(*i));
    let query = Some(opt.query.clone());
    matches_resource(&query, fields.as_slice(), i.tags.as_slice())
}

/// The instances that the query of `opt` keeps, in their order.
pub fn filter_instances(instances: Vec<Instance>, opt: &SearchQueryOpt) -> (r: Vec<Instance>)
    ensures
        r@ == instances@.filter(
            |i: Instance| matches_query(Some(opt.query@), instance_fields(i), i.tags@),
        ),
{
    let ghost all = instances@;
    let ghost pred = |i: Instance| matches_query(Some(opt.query@), instance_fields(i), i.tags@);
    let mut r: Vec<Instance> = Vec::new();
    for inst in it: instances.into_iter()
        invariant
            it.seq() == all,
            pred == (|i: Instance| matches_query(Some(opt.query@), instance_fields(i), i.tags@)),
            r@ == all.take(it.index()).filter(pred),
    {
        let ghost k = it.index();
        proof {
            reveal(Seq::filter);
        }
        assert(all.take(k + 1).drop_last() =~= all.take(k));
        assert(all.take(k + 1).last() == inst);
        if search(&inst, opt) {
            r.push(inst);
        }
    }
    assert(all.take(all.len() as int) =~= all);
    r
}

/// The value of the first tag with key `key`, or empty when none has it.
pub open spec fn first_value(tags: Seq<Tag>, key: Seq<char>) -> Seq<char>
    decreases tags.len(),
{
    if tags.len() == 0 {
        Seq::<char>::empty()
    } else if tags[0].key@ == key {
        value_text(tags[0])
    } else {
        first_value(tags.drop_first(), key)
    }
}

/// An instance's name: the value of its first `Name` tag, or empty.
pub fn name(tags: &[Tag]) -> (r: String)
    ensures
        r@ == first_value(tags@, "Name"@),
{
    let key = String::from_str("Name");
    let mut j: usize = 0;
    assert(tags@.subrange(0, tags@.len() as int) =~= tags@);
    while j < tags.len()
        invariant
            j <= tags@.len(),
            key@ == "Name"@,
            first_value(tags@, key@) == first_value(
                tags@.subrange(j as int, tags@.len() as int),
                key@,
            ),
        decreases tags@.len() - j,
    {
        let ghost rest = tags@.subrange(j as int, tags@.len() as int);
        assert(rest[0] == tags@[j as int]);
        assert(rest.drop_first() =~= tags@.subrange(j + 1, tags@.len() as int));
        if tags[j].key == key {
            return match &tags[j].value {
                Some(v) => v.clone(),
                None => String::new(),
            };
        }
        j += 1;
    }
    String::new()
}

/// How the info view prints instances.
pub enum OutputFormat {
    /// The default table, with counts.
    Table,
    /// Names only.
    Name,
    /// Every column.
    Wide,
}

/// The output format that `-o` asks for: none gives the table, `name` and
/// `wide` their formats, and anything else is refused, with what was asked.
pub fn output_format(output: &Option<String>) -> (r: Result<OutputFormat, String>)
    ensures
        match output {
            None => r == Ok::<OutputFormat, String>(OutputFormat::Table),
            Some(o) => if o@ == "name"@ {
                r == Ok::<OutputFormat, String>(OutputFormat::Name)
            } else if o@ == "wide"@ {
                r == Ok::<OutputFormat, String>(OutputFormat::Wide)
            } else {
                r matches Err(e) && e@ == o@
            },
        },
{
    match output {
        None => Ok(OutputFormat::Table),
        Some(o) => {
            if *o == String::from_str("name") {
                Ok(OutputFormat::Name)
            } else if *o == String::from_str("wide") {
                Ok(OutputFormat::Wide)
            } else {
                Err(o.clone())
            }
        },
    }
}

} // verus!
