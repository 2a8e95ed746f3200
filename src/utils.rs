//! Tags, the comma-separated query matcher, and the tag projector shared by
//! every resource kind.
use crate::text::{contains, lemma_split_at_comma, split_commas, split_terms, str_contains};
use itertools::Itertools;
use vstd::prelude::*;

verus! {

/// A resource tag: a key with an optional value.
pub struct Tag {
    pub key: String,
    pub value: Option<String>,
}

/// What a tag shows in a column: its value, or empty when it has none.
pub open spec fn value_text(t: Tag) -> Seq<char> {
    match t.value {
        Some(v) => v@,
        None => Seq::<char>::empty(),
    }
}

/// A query term hits a tag when it occurs in the key or in a present value.
pub open spec fn tag_hit(t: Tag, term: Seq<char>) -> bool {
    contains(t.key@, term) || match t.value {
        Some(v) => contains(v@, term),
        None => false,
    }
}

/// A term hits a resource when it occurs in one of its fields or tags.
pub open spec fn term_hits(term: Seq<char>, fields: Seq<Seq<char>>, tags: Seq<Tag>) -> bool {
    (exists|i: int| 0 <= i < fields.len() && contains(#[trigger] fields[i], term)) || (exists|
        j: int,
    |
        0 <= j < tags.len() && tag_hit(#[trigger] tags[j], term))
}

/// Some comma-separated term of `query` hits the resource.
pub open spec fn query_hits(query: Seq<char>, fields: Seq<Seq<char>>, tags: Seq<Tag>) -> bool {
    exists|k: int|
        0 <= k < split_commas(query).len() && term_hits(
            #[trigger] split_commas(query)[k],
            fields,
            tags,
        )
}

/// Whether a resource passes the filter. `fields[0]` is the field that
/// identifies the resource: a resource without it is never filtered out, nor is
/// any resource when there is no query.
pub open spec fn matches_query(
    query: Option<Seq<char>>,
    fields: Seq<Seq<char>>,
    tags: Seq<Tag>,
) -> bool {
    match query {
        None => true,
        Some(q) => fields.len() == 0 || fields[0].len() == 0 || query_hits(q, fields, tags),
    }
}

fn fields_hit(fields: &[String], term: &str) -> (r: bool)
    ensures
        r == (exists|i: int| 0 <= i < fields@.len() && contains(#[trigger] fields@[i]@, term@)),
{
    let mut i: usize = 0;
    while i < fields.len()
        invariant
            i <= fields@.len(),
            forall|k: int| 0 <= k < i ==> !contains(#[trigger] fields@[k]@, term@),
        decreases fields@.len() - i,
    {
        if str_contains(fields[i].as_str(), term) {
            return true;
        }
        i += 1;
    }
    false
}

fn tag_hit_exec(t: &Tag, term: &str) -> (r: bool)
    ensures
        r == tag_hit(*t, term@),
{
    if str_contains(t.key.as_str(), term) {
        return true;
    }
    match &t.value {
        Some(v) => str_contains(v.as_str(), term),
        None => false,
    }
}

fn tags_hit(tags: &[Tag], term: &str) -> (r: bool)
    ensures
        r == (exists|j: int| 0 <= j < tags@.len() && tag_hit(#[trigger] tags@[j], term@)),
{
    let mut j: usize = 0;
    while j < tags.len()
        invariant
            j <= tags@.len(),
            forall|k: int| 0 <= k < j ==> !tag_hit(#[trigger] tags@[k], term@),
        decreases tags@.len() - j,
    {
        if tag_hit_exec(&tags[j], term) {
            return true;
        }
        j += 1;
    }
    false
}

/// Whether a resource with these fields (the identifying one first) and tags
/// passes `query`: some comma-separated term of it occurs in a field, a tag
/// key or a tag value.
pub fn matches_resource(query: &Option<String>, fields: &[String], tags: &[Tag]) -> (r: bool)
    ensures
        r == matches_query(query.deep_view(), fields.deep_view(), tags@),
{
    let q = match query {
        None => {
            return true;
        },
        Some(q) => q,
    };
    if fields.len() == 0 || fields[0].as_str().is_empty() {
        return true;
    }
    let terms = split_terms(q.as_str());
    let ghost fv = fields.deep_view();
    assert(fv.len() == fields@.len());
    assert(forall|i: int| 0 <= i < fv.len() ==> #[trigger] fv[i] == fields@[i]@);
    assert(query.deep_view() == Some(q@));
    let mut k: usize = 0;
    while k < terms.len()
        invariant
            query.deep_view() == Some(q@),
            fv.len() > 0 && fv[0].len() > 0,
            terms.deep_view() == split_commas(q@),
            fv == fields.deep_view(),
            fv.len() == fields@.len(),
            forall|i: int| 0 <= i < fv.len() ==> #[trigger] fv[i] == fields@[i]@,
            k <= terms@.len(),
            forall|m: int|
                0 <= m < k ==> !term_hits(#[trigger] split_commas(q@)[m], fv, tags@),
        decreases terms@.len() - k,
    {
        let term = terms[k].as_str();
        assert(split_commas(q@)[k as int] == term@);
        let in_fields = fields_hit(fields, term);
        if in_fields || tags_hit(tags, term) {
            if in_fields {
                let ghost i = choose|i: int| 0 <= i < fields@.len() && contains(fields@[i]@, term@);
                assert(contains(fv[i], term@));
            }
            assert(term_hits(split_commas(q@)[k as int], fv, tags@));
            assert(query_hits(q@, fv, tags@));
            return true;
        }
        k += 1;
    }
    false
}

/// Each tag key seen, in order.
pub open spec fn keys_of(tags: Seq<Tag>) -> Seq<Seq<char>> {
    tags.map_values(|t: Tag| t.key@)
}

/// The value shown under `key`: that of the last tag with this key, or empty
/// when no tag has it.
pub open spec fn lookup(tags: Seq<Tag>, key: Seq<char>) -> Seq<char>
    decreases tags.len(),
{
    if tags.len() == 0 {
        Seq::<char>::empty()
    } else if tags.last().key@ == key {
        value_text(tags.last())
    } else {
        lookup(tags.drop_last(), key)
    }
}

/// One value per requested key, in the order of the keys.
pub open spec fn projection(tags: Seq<Tag>, keys: Seq<Seq<char>>) -> Seq<Seq<char>> {
    keys.map_values(|k: Seq<char>| lookup(tags, k))
}

fn value_of(t: &Tag) -> (r: String)
    ensures
        r@ == value_text(*t),
{
    match &t.value {
        Some(v) => v.clone(),
        None => String::new(),
    }
}

fn lookup_exec(tags: &[Tag], key: &String) -> (r: String)
    ensures
        r@ == lookup(tags@, key@),
{
    let mut found = String::new();
    let mut j: usize = 0;
    assert(tags@.subrange(0, 0) =~= Seq::<Tag>::empty());
    while j < tags.len()
        invariant
            j <= tags@.len(),
            found@ == lookup(tags@.subrange(0, j as int), key@),
        decreases tags@.len() - j,
    {
        assert(tags@.subrange(0, j + 1).drop_last() =~= tags@.subrange(0, j as int));
        if tags[j].key == *key {
            found = value_of(&tags[j]);
        }
        j += 1;
    }
    assert(tags@.subrange(0, tags@.len() as int) =~= tags@);
    found
}

/// The values of `tags` under `keys`, one per key and in the same order; a
/// key that no tag has, or whose tag has no value, gives an empty string.
pub fn get_values(tags: &[Tag], keys: &[String]) -> (r: Vec<String>)
    ensures
        r.deep_view() == projection(tags@, keys.deep_view()),
        r@.len() == keys@.len(),
        forall|i: int| 0 <= i < keys@.len() ==> #[trigger] r@[i]@ == lookup(tags@, keys@[i]@),
{
    let mut r: Vec<String> = Vec::new();
    let mut i: usize = 0;
    while i < keys.len()
        invariant
            i <= keys@.len(),
            r@.len() == i,
            forall|m: int| 0 <= m < i ==> #[trigger] r@[m]@ == lookup(tags@, keys@[m]@),
        decreases keys@.len() - i,
    {
        r.push(lookup_exec(tags, &keys[i]));
        i += 1;
    }
    assert(r.deep_view() =~= projection(tags@, keys.deep_view()));
    r
}

/// A query term as a pattern: as it stands when exact, else between asterisks.
pub open spec fn pattern_of(term: Seq<char>, is_exact: bool) -> Seq<char> {
    if is_exact {
        term
    } else {
        seq!['*'] + term + seq!['*']
    }
}

/// The patterns of each comma-separated term of `q`.
pub open spec fn patterns(q: Seq<char>, is_exact: bool) -> Seq<Seq<char>> {
    split_commas(q).map_values(|t: Seq<char>| pattern_of(t, is_exact))
}

fn starred(term: &str) -> (r: String)
    ensures
        r@ == pattern_of(term@, false),
{
    proof {
        reveal_strlit("*");
    }
    let mut r = String::from_str("*");
    r.append(term);
    r.append("*");
    r
}

/// The comma-separated terms of `q` as name patterns: unchanged when
/// `is_exact`, else each between asterisks.
pub fn split(q: &str, is_exact: bool) -> (r: Vec<String>)
    ensures
        r.deep_view() == patterns(q@, is_exact),
{
    let terms = split_terms(q);
    if is_exact {
        assert(terms.deep_view() =~= patterns(q@, is_exact));
        return terms;
    }
    let mut r: Vec<String> = Vec::new();
    let mut i: usize = 0;
    while i < terms.len()
        invariant
            terms.deep_view() == split_commas(q@),
            i <= terms@.len(),
            r@.len() == i,
            forall|m: int|
                0 <= m < i ==> #[trigger] r@[m]@ == pattern_of(split_commas(q@)[m], false),
        decreases terms@.len() - i,
    {
        assert(terms@[i as int]@ == split_commas(q@)[i as int]);
        r.push(starred(terms[i].as_str()));
        i += 1;
    }
    assert(r.deep_view() =~= patterns(q@, is_exact));
    r
}

/// The patterns of an optional query; none when it is absent.
pub open spec fn optional_patterns(q: Option<Seq<char>>, is_exact: bool) -> Seq<Seq<char>> {
    match q {
        Some(s) => patterns(s, is_exact),
        None => Seq::<Seq<char>>::empty(),
    }
}

/// The name patterns of an ambiguous and an exact query, ambiguous ones first;
/// nothing when neither is given.
pub open spec fn name_patterns(query: Option<Seq<char>>, exact_q: Option<Seq<char>>) -> Option<
    Seq<Seq<char>>,
> {
    if query is None && exact_q is None {
        None
    } else {
        Some(optional_patterns(query, false) + optional_patterns(exact_q, true))
    }
}

fn split_optional(q: &Option<String>, is_exact: bool) -> (r: Vec<String>)
    ensures
        r.deep_view() == optional_patterns(q.deep_view(), is_exact),
{
    match q {
        Some(s) => split(s.as_str(), is_exact),
        None => {
            let r: Vec<String> = Vec::new();
            assert(r.deep_view() =~= Seq::<Seq<char>>::empty());
            r
        },
    }
}

/// The name patterns of `query` (between asterisks) followed by those of
/// `exact_q` (as they stand); `None` when neither is given.
pub fn name_query(query: &Option<String>, exact_q: &Option<String>) -> (r: Option<Vec<String>>)
    ensures
        r.deep_view() == name_patterns(query.deep_view(), exact_q.deep_view()),
{
    if query.is_none() && exact_q.is_none() {
        return None;
    }
    let mut input = split_optional(query, false);
    let mut exact_input = split_optional(exact_q, true);
    let ghost a = input.deep_view();
    let ghost b = exact_input.deep_view();
    input.append(&mut exact_input);
    assert(input.deep_view() =~= a + b);
    Some(input)
}

/// `s` with every repeated item dropped, each kept where it first occurs.
pub open spec fn first_occurrences(s: Seq<Seq<char>>) -> Seq<Seq<char>>
    decreases s.len(),
{
    if s.len() == 0 {
        Seq::<Seq<char>>::empty()
    } else {
        let prev = first_occurrences(s.drop_last());
        if prev.contains(s.last()) {
            prev
        } else {
            prev.push(s.last())
        }
    }
}

/// Relies on itertools' `Itertools::unique`: a stable filter that yields each
/// item at its first occurrence and drops later equal ones.
#[verifier::external_body]
fn unique_strings(items: Vec<String>) -> (r: Vec<String>)
    ensures
        r.deep_view() == first_occurrences(items.deep_view()),
{
    items.into_iter().unique().collect()
}

/// Appends the key of every tag in `tags`, in order.
pub fn push_keys(keys: &mut Vec<String>, tags: &[Tag])
    ensures
        final(keys).deep_view() == old(keys).deep_view() + keys_of(tags@),
{
    let ghost start = keys.deep_view();
    let mut j: usize = 0;
    while j < tags.len()
        invariant
            j <= tags@.len(),
            keys.deep_view() == start + keys_of(tags@.subrange(0, j as int)),
        decreases tags@.len() - j,
    {
        let ghost before = keys.deep_view();
        keys.push(tags[j].key.clone());
        assert(keys.deep_view() =~= before.push(tags@[j as int].key@));
        assert(keys_of(tags@.subrange(0, j + 1)) =~= keys_of(tags@.subrange(0, j as int)).push(
            tags@[j as int].key@,
        ));
        j += 1;
    }
    assert(tags@.subrange(0, tags@.len() as int) =~= tags@);
}

/// The tag keys shown as columns: with `show_all_tags`, every key of `seen`
/// once, in order of first appearance; else the comma-separated keys of
/// `tag_columns`, or none.
pub open spec fn column_keys(
    show_all_tags: bool,
    tag_columns: Option<Seq<char>>,
    seen: Seq<Seq<char>>,
) -> Seq<Seq<char>> {
    if show_all_tags {
        first_occurrences(seen)
    } else {
        match tag_columns {
            Some(t) => split_commas(t),
            None => Seq::<Seq<char>>::empty(),
        }
    }
}

/// The tag keys to show as columns, from the options of an info view and
/// the keys seen on the listed resources.
pub fn tag_column(show_all_tags: bool, tag_columns: &Option<String>, seen: Vec<String>) -> (r: Vec<
    String,
>)
    ensures
        r.deep_view() == column_keys(show_all_tags, tag_columns.deep_view(), seen.deep_view()),
{
    if show_all_tags {
        unique_strings(seen)
    } else {
        match tag_columns {
            Some(t) => split_terms(t.as_str()),
            None => {
                let r: Vec<String> = Vec::new();
                assert(r.deep_view() =~= Seq::<Seq<char>>::empty());
                r
            },
        }
    }
}

/// A resource kind that carries tags.
pub trait Tagged {
    /// The resource's tags, in order.
    spec fn tag_list(&self) -> Seq<Tag>;

    fn tags(&self) -> (r: &[Tag])
        ensures
            r@ == self.tag_list(),
    ;
}

/// Every tag key of every resource, resource by resource, repeats included.
pub open spec fn all_keys<R: Tagged>(resources: Seq<R>) -> Seq<Seq<char>> {
    resources.map_values(|x: R| keys_of(x.tag_list())).flatten()
}

/// The tag keys of `resources`, in order, as the candidates for "all tags"
/// columns.
pub fn seen_tag_keys<R: Tagged>(resources: &[R]) -> (r: Vec<String>)
    ensures
        r.deep_view() == all_keys(resources@),
{
    let mut r: Vec<String> = Vec::new();
    let mut i: usize = 0;
    let ghost per = resources@.map_values(|x: R| keys_of(x.tag_list()));
    assert(per.take(0) =~= Seq::<Seq<Seq<char>>>::empty());
    assert(r.deep_view() =~= Seq::<Seq<char>>::empty());
    while i < resources.len()
        invariant
            i <= resources@.len(),
            per == resources@.map_values(|x: R| keys_of(x.tag_list())),
            r.deep_view() == per.take(i as int).flatten(),
        decreases resources@.len() - i,
    {
        push_keys(&mut r, resources[i].tags());
        proof {
            per.take(i as int).lemma_flatten_push(per[i as int]);
        }
        assert(per.take(i + 1) =~= per.take(i as int).push(per[i as int]));
        i += 1;
    }
    assert(per.take(resources@.len() as int) =~= per);
    r
}

/// The only item of `items`; `None` unless there is exactly one.
pub fn narrow_to_one<T>(items: Vec<T>) -> (r: Option<T>)
    ensures
        items@.len() == 1 ==> r == Some(items@[0]),
        items@.len() != 1 ==> r is None,
{
    if items.len() != 1 {
        return None;
    }
    let mut items = items;
    items.pop()
}

/// A resource whose identifying field is empty passes every query.
pub proof fn lemma_unidentified_passes(
    query: Option<Seq<char>>,
    fields: Seq<Seq<char>>,
    tags: Seq<Tag>,
)
    requires
        fields.len() > 0,
        fields[0].len() == 0,
    ensures
        matches_query(query, fields, tags),
{
}

/// A comma in a query means "or": `a,b` matches a resource exactly when `a`
/// matches it or `b` does.
pub proof fn lemma_comma_is_or(a: Seq<char>, b: Seq<char>, fields: Seq<Seq<char>>, tags: Seq<Tag>)
    ensures
        matches_query(Some(a + seq![','] + b), fields, tags) == (matches_query(
            Some(a),
            fields,
            tags,
        ) || matches_query(Some(b), fields, tags)),
{
    let q = a + seq![','] + b;
    lemma_split_at_comma(a, b);
    let sa = split_commas(a);
    let sb = split_commas(b);
    let s = split_commas(q);
    assert(s == sa + sb);
    if query_hits(q, fields, tags) {
        let k = choose|k: int| 0 <= k < s.len() && term_hits(#[trigger] s[k], fields, tags);
        if k < sa.len() {
            assert(s[k] == sa[k]);
            assert(query_hits(a, fields, tags));
        } else {
            assert(s[k] == sb[k - sa.len()]);
            assert(query_hits(b, fields, tags));
        }
    }
    if query_hits(a, fields, tags) {
        let k = choose|k: int| 0 <= k < sa.len() && term_hits(#[trigger] sa[k], fields, tags);
        assert(s[k] == sa[k]);
        assert(query_hits(q, fields, tags));
    }
    if query_hits(b, fields, tags) {
        let k = choose|k: int| 0 <= k < sb.len() && term_hits(#[trigger] sb[k], fields, tags);
        assert(s[sa.len() + k] == sb[k]);
        assert(query_hits(q, fields, tags));
    }
}

proof fn lemma_lookup_uniform(tags: Seq<Tag>, key: Seq<char>, v: Seq<char>)
    requires
        forall|m: int|
            0 <= m < tags.len() && (#[trigger] tags[m]).key@ == key ==> value_text(tags[m]) == v,
    ensures
        lookup(tags, key) == v || (lookup(tags, key) == Seq::<char>::empty() && forall|m: int|
            0 <= m < tags.len() ==> (#[trigger] tags[m]).key@ != key),
    decreases tags.len(),
{
    if tags.len() > 0 {
        let rest = tags.drop_last();
        assert forall|m: int| 0 <= m < rest.len() && (#[trigger] rest[m]).key@ == key implies value_text(
            rest[m],
        ) == v by {
            assert(rest[m] == tags[m]);
        }
        lemma_lookup_uniform(rest, key, v);
        let n = tags.len() - 1;
        if tags.last().key@ == key {
            assert(tags[n] == tags.last());
        } else if lookup(rest, key) != v {
            assert forall|m: int| 0 <= m < tags.len() implies (#[trigger] tags[m]).key@ != key by {
                if m < n {
                    assert(rest[m] == tags[m]);
                }
            }
        }
    }
}

/// Projection is idempotent: tags that hold each requested key with the value
/// projected for it project onto those keys as the first tags did.
pub proof fn lemma_projection_idempotent(tags: Seq<Tag>, keys: Seq<Seq<char>>, projected: Seq<Tag>)
    requires
        projected.len() == keys.len(),
        forall|m: int|
            0 <= m < keys.len() ==> (#[trigger] projected[m]).key@ == keys[m] && value_text(
                projected[m],
            ) == projection(tags, keys)[m],
    ensures
        projection(projected, keys) == projection(tags, keys),
        projection(tags, keys).len() == keys.len(),
{
    assert forall|i: int| 0 <= i < keys.len() implies #[trigger] projection(projected, keys)[i]
        == projection(tags, keys)[i] by {
        let k = keys[i];
        assert forall|m: int|
            0 <= m < projected.len() && (#[trigger] projected[m]).key@ == k implies value_text(
            projected[m],
        ) == lookup(tags, k) by {
            assert(keys[m] == k);
        }
        lemma_lookup_uniform(projected, k, lookup(tags, k));
        assert(projected[i].key@ == k);
    }
    assert(projection(projected, keys) =~= projection(tags, keys));
}

} // verus!
