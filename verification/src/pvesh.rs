//! Reading what `qm`, `pvesm` and `pvesh` print: the VM list, the storage
//! list, the cluster resources (a JSON array of flat objects) and the next
//! free VMID.

use vstd::prelude::*;
use crate::text::{
    chars_of, decimal, find_char_in_range, find_from, find_in_range, first_where, first_word,
    first_word_range, lemma_first_where, lemma_split_lines_step, parse_u32, parse_u32_range,
    push_char, push_decimal, split_lines, string_of_range, trim, trim_range, trim_start,
    trim_start_range,
};
use std::collections::HashSet;

verus! {

// ---------------------------------------------------------------------------
// Top-level objects of a JSON text
// ---------------------------------------------------------------------------

/// The objects that a scan of brace depth finds in `s` from index `i` on,
/// the depth being `depth` there and the current object having begun at `start`:
/// a `{` at depth 0 begins an object, a `}` that brings the depth back to 0 ends it.
pub open spec fn objects_from(s: Seq<char>, i: int, depth: int, start: int) -> Seq<Seq<char>>
    decreases s.len() - i,
{
    if i < 0 || i >= s.len() {
        Seq::empty()
    } else if s[i] == '{' {
        objects_from(s, i + 1, depth + 1, if depth == 0 { i } else { start })
    } else if s[i] == '}' {
        if depth - 1 == 0 {
            seq![s.subrange(start, i + 1)] + objects_from(s, i + 1, depth - 1, start)
        } else {
            objects_from(s, i + 1, depth - 1, start)
        }
    } else {
        objects_from(s, i + 1, depth, start)
    }
}

/// The top-level objects of a JSON text, in order.
pub open spec fn json_objects(s: Seq<char>) -> Seq<Seq<char>> {
    objects_from(s, 0, 0, 0)
}

proof fn lemma_objects_from_braced(s: Seq<char>, i: int, depth: int, start: int)
    requires
        0 <= i,
        depth >= 1 ==> 0 <= start < i && start < s.len() && s[start] == '{',
    ensures
        forall|k: int|
            0 <= k < objects_from(s, i, depth, start).len() ==> {
                let o = #[trigger] objects_from(s, i, depth, start)[k];
                &&& o.len() >= 2
                &&& o[0] == '{'
                &&& o.last() == '}'
            },
    decreases s.len() - i,
{
    if 0 <= i < s.len() {
        if s[i] == '{' {
            let next_start = if depth == 0 { i } else { start };
            lemma_objects_from_braced(s, i + 1, depth + 1, next_start);
            assert(objects_from(s, i, depth, start) == objects_from(s, i + 1, depth + 1, next_start));
        } else if s[i] == '}' {
            lemma_objects_from_braced(s, i + 1, depth - 1, start);
            let rest = objects_from(s, i + 1, depth - 1, start);
            if depth - 1 == 0 {
                let head = s.subrange(start, i + 1);
                assert(head.len() >= 2 && head[0] == '{' && head.last() == '}');
                assert(objects_from(s, i, depth, start) == seq![head] + rest);
                assert forall|k: int| 0 <= k < (seq![head] + rest).len() implies {
                    let o = #[trigger] (seq![head] + rest)[k];
                    &&& o.len() >= 2
                    &&& o[0] == '{'
                    &&& o.last() == '}'
                } by {
                    if k > 0 {
                        assert((seq![head] + rest)[k] == rest[k - 1]);
                    }
                }
            } else {
                assert(objects_from(s, i, depth, start) == rest);
            }
        } else {
            lemma_objects_from_braced(s, i + 1, depth, start);
            assert(objects_from(s, i, depth, start) == objects_from(s, i + 1, depth, start));
        }
    }
}

/// Every top-level object handed out is a piece of the text that begins with
/// `{` and ends with the `}` that closes it.
pub proof fn lemma_json_objects_braced(s: Seq<char>, k: int)
    requires
        0 <= k < json_objects(s).len(),
    ensures
        json_objects(s)[k].len() >= 2,
        json_objects(s)[k][0] == '{',
        json_objects(s)[k].last() == '}',
{
    lemma_objects_from_braced(s, 0, 0, 0);
}

/// The texts of spans `[a, b)` of `s`.
pub open spec fn spans_text(s: Seq<char>, spans: Seq<(usize, usize)>) -> Seq<Seq<char>> {
    spans.map_values(|p: (usize, usize)| s.subrange(p.0 as int, p.1 as int))
}

/// The spans `[a, b)` of the top-level objects of `v`, in order.
pub fn object_spans(v: &Vec<char>) -> (r: Vec<(usize, usize)>)
    ensures
        r@.len() == json_objects(v@).len(),
        forall|k: int|
            #![trigger r@[k]]
            0 <= k < r@.len() ==> {
                &&& r@[k].0 <= r@[k].1 <= v.len()
                &&& json_objects(v@)[k] == v@.subrange(r@[k].0 as int, r@[k].1 as int)
            },
{
    let mut out: Vec<(usize, usize)> = Vec::new();
    // The depth is `opens - closes`; counting both keeps it free of overflow.
    let mut opens: usize = 0;
    let mut closes: usize = 0;
    let mut start: usize = 0;
    let mut i: usize = 0;
    while i < v.len()
        invariant
            i <= v.len(),
            opens <= i,
            closes <= i,
            start <= i,
            forall|k: int| 0 <= k < out@.len() ==> (#[trigger] out@[k]).0 <= out@[k].1 <= i,
            spans_text(v@, out@) + objects_from(v@, i as int, opens - closes, start as int)
                == json_objects(v@),
        decreases v.len() - i,
    {
        let ghost before = spans_text(v@, out@);
        let c = v[i];
        if c == '{' {
            if opens == closes {
                start = i;
            }
            opens = opens + 1;
        } else if c == '}' {
            closes = closes + 1;
            if opens == closes {
                out.push((start, i + 1));
                proof {
                    assert(spans_text(v@, out@) =~= before + seq![v@.subrange(start as int, i + 1)]);
                }
            }
        }
        i = i + 1;
    }
    proof {
        assert(objects_from(v@, i as int, opens - closes, start as int) =~= Seq::<
            Seq<char>,
        >::empty());
        assert(spans_text(v@, out@) =~= json_objects(v@));
        assert forall|k: int| 0 <= k < out@.len() implies json_objects(v@)[k] == v@.subrange(
            (#[trigger] out@[k]).0 as int,
            out@[k].1 as int,
        ) by {
            assert(spans_text(v@, out@)[k] == v@.subrange(out@[k].0 as int, out@[k].1 as int));
        }
    }
    out
}

// ---------------------------------------------------------------------------
// Fields of a flat JSON object
// ---------------------------------------------------------------------------

/// The test for `'"'`.
pub open spec fn is_quote() -> spec_fn(char) -> bool {
    |c: char| c == '"'
}

/// The test for the end of an unquoted value.
pub open spec fn is_value_end() -> spec_fn(char) -> bool {
    |c: char| c == ',' || c == '}'
}

/// The text `"key":`.
pub open spec fn field_needle(key: Seq<char>) -> Seq<char> {
    seq!['"'] + key + seq!['"', ':']
}

/// The value of field `key` in the object text `obj`, read after the first
/// `"key":` in it: a quoted value up to the next `"`, else the text up to the
/// next `,` or `}` (or the end), trimmed. `None` when `"key":` does not occur,
/// or a quoted value has no closing quote.
pub open spec fn field_value(obj: Seq<char>, key: Seq<char>) -> Option<Seq<char>> {
    let needle = field_needle(key);
    match find_from(obj, needle, 0) {
        None => None,
        Some(idx) => {
            let rest = trim_start(obj.skip(idx + needle.len()));
            if rest.len() > 0 && rest[0] == '"' {
                let r2 = rest.drop_first();
                let end = first_where(r2, is_quote(), 0);
                if end < r2.len() {
                    Some(r2.take(end))
                } else {
                    None
                }
            } else {
                Some(trim(rest.take(first_where(rest, is_value_end(), 0))))
            }
        },
    }
}

/// The characters of `"key":`.
fn needle_of(key: &str) -> (r: Vec<char>)
    ensures
        r@ == field_needle(key@),
{
    let k = chars_of(key);
    let mut r: Vec<char> = Vec::new();
    r.push('"');
    let mut i: usize = 0;
    while i < k.len()
        invariant
            i <= k.len(),
            r@ == seq!['"'] + k@.take(i as int),
        decreases k.len() - i,
    {
        r.push(k[i]);
        assert(k@.take(i + 1) =~= k@.take(i as int).push(k@[i as int]));
        assert(r@ =~= seq!['"'] + k@.take(i + 1));
        i = i + 1;
    }
    r.push('"');
    r.push(':');
    assert(k@.take(k.len() as int) =~= k@);
    assert(r@ =~= field_needle(key@));
    r
}

/// The span of the value of field `key` in the object `v[a..b]`.
fn field_span(v: &Vec<char>, a: usize, b: usize, key: &str) -> (r: Option<(usize, usize)>)
    requires
        a <= b <= v.len(),
    ensures
        match r {
            Some((x, y)) => x <= y <= v.len() && field_value(v@.subrange(a as int, b as int), key@)
                == Some(v@.subrange(x as int, y as int)),
            None => field_value(v@.subrange(a as int, b as int), key@) is None,
        },
{
    let ghost obj = v@.subrange(a as int, b as int);
    let needle = needle_of(key);
    let idx = match find_in_range(v, a, b, &needle) {
        Some(idx) => idx,
        None => {
            return None;
        },
    };
    proof {
        assert(idx + needle.len() <= b - a) by {
            assert(crate::text::occurs_at(obj, needle@, idx as int)) by {
                crate::text::lemma_find_from_found(obj, needle@, 0);
            }
        }
    }
    let from = a + idx + needle.len();
    assert(obj.skip(idx + needle.len()) =~= v@.subrange(from as int, b as int));
    let r0 = trim_start_range(v, from, b);
    let ghost rest = v@.subrange(r0 as int, b as int);
    if r0 < b && v[r0] == '"' {
        let e = find_char_in_range(v, r0 + 1, b, '"');
        proof {
            let r2 = rest.drop_first();
            assert(r2 =~= v@.subrange(r0 + 1, b as int));
            assert forall|j: int| 0 <= j < e - (r0 + 1) implies !is_quote()(#[trigger] r2[j]) by {
                assert(r2[j] == v@[r0 + 1 + j]);
            }
            if e < b {
                assert(r2[e - (r0 + 1)] == v@[e as int]);
            }
            lemma_first_where(r2, is_quote(), 0, e - (r0 + 1));
            assert(r2.take(e - (r0 + 1)) =~= v@.subrange(r0 + 1, e as int));
        }
        if e < b {
            Some((r0 + 1, e))
        } else {
            None
        }
    } else {
        let mut e = r0;
        while e < b && v[e] != ',' && v[e] != '}'
            invariant
                r0 <= e <= b <= v.len(),
                forall|j: int| r0 <= j < e ==> v@[j] != ',' && v@[j] != '}',
            decreases b - e,
        {
            e = e + 1;
        }
        proof {
            assert forall|j: int| 0 <= j < e - r0 implies !is_value_end()(#[trigger] rest[j]) by {
                assert(rest[j] == v@[r0 + j]);
            }
            if e < b {
                assert(rest[e - r0] == v@[e as int]);
            }
            lemma_first_where(rest, is_value_end(), 0, e - r0);
            assert(rest.take(e - r0) =~= v@.subrange(r0 as int, e as int));
        }
        let (x, y) = trim_range(v, r0, e);
        Some((x, y))
    }
}

/// The value of field `key` in the object text `obj`; see [`field_value`].
pub fn extract_field(obj: &str, key: &str) -> (r: Option<String>)
    ensures
        match r {
            Some(s) => field_value(obj@, key@) == Some(s@),
            None => field_value(obj@, key@) is None,
        },
{
    let v = chars_of(obj);
    assert(v@.subrange(0, v.len() as int) =~= obj@);
    match field_span(&v, 0, v.len(), key) {
        Some((x, y)) => Some(string_of_range(&v, x, y)),
        None => None,
    }
}

// ---------------------------------------------------------------------------
// Templates and VMIDs in the cluster resources
// ---------------------------------------------------------------------------

/// The template that a resource object describes, if it is one: an object
/// whose `template` field is `1` and whose `vmid` field is a `u32`, named by its
/// `name` field, or `vm<vmid>` without one.
pub open spec fn template_entry(obj: Seq<char>) -> Option<(u32, Seq<char>)> {
    if field_value(obj, "template"@) == Some(seq!['1']) {
        match field_value(obj, "vmid"@) {
            Some(t) => match parse_u32(t) {
                Some(id) => Some(
                    (
                        id,
                        match field_value(obj, "name"@) {
                            Some(n) => n,
                            None => seq!['v', 'm'] + decimal(id as nat),
                        },
                    ),
                ),
                None => None,
            },
            None => None,
        }
    } else {
        None
    }
}

/// The templates among the objects, in order.
pub open spec fn template_entries(objs: Seq<Seq<char>>) -> Seq<(u32, Seq<char>)>
    decreases objs.len(),
{
    if objs.len() == 0 {
        Seq::empty()
    } else {
        let prev = template_entries(objs.drop_last());
        match template_entry(objs.last()) {
            Some(e) => prev.push(e),
            None => prev,
        }
    }
}

/// Puts `e` into `s` after the last entry whose VMID is not greater than its own.
pub open spec fn insert_by_id(s: Seq<(u32, Seq<char>)>, e: (u32, Seq<char>)) -> Seq<
    (u32, Seq<char>),
>
    decreases s.len(),
{
    if s.len() == 0 {
        seq![e]
    } else if s.last().0 <= e.0 {
        s.push(e)
    } else {
        insert_by_id(s.drop_last(), e).push(s.last())
    }
}

/// `s` sorted by VMID, entries with the same VMID kept in their order (a stable sort).
pub open spec fn sort_by_id(s: Seq<(u32, Seq<char>)>) -> Seq<(u32, Seq<char>)>
    decreases s.len(),
{
    if s.len() == 0 {
        s
    } else {
        insert_by_id(sort_by_id(s.drop_last()), s.last())
    }
}

pub open spec fn sorted_by_id(s: Seq<(u32, Seq<char>)>) -> bool {
    forall|i: int, j: int| 0 <= i <= j < s.len() ==> s[i].0 <= s[j].0
}

pub open spec fn entry_views(s: Seq<(u32, String)>) -> Seq<(u32, Seq<char>)> {
    s.map_values(|e: (u32, String)| (e.0, e.1@))
}

/// Inserting at the place `insert_by_id` picks.
proof fn lemma_insert_by_id_at(s: Seq<(u32, Seq<char>)>, e: (u32, Seq<char>), pos: int)
    requires
        0 <= pos <= s.len(),
        forall|i: int| pos <= i < s.len() ==> (#[trigger] s[i]).0 > e.0,
        pos == 0 || s[pos - 1].0 <= e.0,
    ensures
        insert_by_id(s, e) == s.insert(pos, e),
    decreases s.len(),
{
    if s.len() == 0 {
        assert(s.insert(pos, e) =~= seq![e]);
    } else if s.last().0 <= e.0 {
        assert(pos == s.len());
        assert(s.insert(pos, e) =~= s.push(e));
    } else {
        let s1 = s.drop_last();
        lemma_insert_by_id_at(s1, e, pos);
        assert(s.insert(pos, e) =~= s1.insert(pos, e).push(s.last()));
    }
}

proof fn lemma_insert_by_id(s: Seq<(u32, Seq<char>)>, e: (u32, Seq<char>))
    requires
        sorted_by_id(s),
    ensures
        sorted_by_id(insert_by_id(s, e)),
        insert_by_id(s, e).to_multiset() == s.to_multiset().insert(e),
        insert_by_id(s, e).len() == s.len() + 1,
        forall|i: int| 0 <= i < insert_by_id(s, e).len() ==> (#[trigger] insert_by_id(s, e)[i] == e
            || s.contains(insert_by_id(s, e)[i])),
    decreases s.len(),
{
    broadcast use vstd::seq_lib::to_multiset_build, vstd::multiset::group_multiset_axioms;

    if s.len() == 0 {
        assert(seq![e] =~= s.push(e));
    } else if s.last().0 <= e.0 {
    } else {
        let s1 = s.drop_last();
        assert(sorted_by_id(s1));
        lemma_insert_by_id(s1, e);
        let r1 = insert_by_id(s1, e);
        let r = insert_by_id(s, e);
        assert(r == r1.push(s.last()));
        assert(s1.push(s.last()) =~= s);
        assert(r.to_multiset() =~= s.to_multiset().insert(e));
        assert forall|i: int| 0 <= i < r1.len() implies (#[trigger] r1[i]).0 <= s.last().0 by {
            if r1[i] != e {
                let j = choose|j: int| 0 <= j < s1.len() && s1[j] == r1[i];
                assert(s[j] == s1[j]);
            }
        }
        assert forall|i: int| 0 <= i < r.len() implies (#[trigger] r[i] == e || s.contains(r[i])) by {
            if i < r1.len() {
                assert(r[i] == r1[i]);
                if r1[i] != e {
                    let j = choose|j: int| 0 <= j < s1.len() && s1[j] == r1[i];
                    assert(s[j] == s1[j]);
                }
            } else {
                assert(s[s.len() - 1] == r[i]);
            }
        }
    }
}

/// The stable sort by VMID gives a list sorted by VMID that holds the same
/// entries, each as often as before.
pub proof fn lemma_sort_by_id(s: Seq<(u32, Seq<char>)>)
    ensures
        sorted_by_id(sort_by_id(s)),
        sort_by_id(s).to_multiset() == s.to_multiset(),
        sort_by_id(s).len() == s.len(),
    decreases s.len(),
{
    broadcast use vstd::seq_lib::to_multiset_build;

    if s.len() > 0 {
        lemma_sort_by_id(s.drop_last());
        lemma_insert_by_id(sort_by_id(s.drop_last()), s.last());
        assert(s.drop_last().push(s.last()) =~= s);
    }
}

/// The templates of the cluster in the object `v[a..b]`, if it describes one.
fn template_of(v: &Vec<char>, a: usize, b: usize) -> (r: Option<(u32, String)>)
    requires
        a <= b <= v.len(),
    ensures
        match r {
            Some(e) => template_entry(v@.subrange(a as int, b as int)) == Some((e.0, e.1@)),
            None => template_entry(v@.subrange(a as int, b as int)) is None,
        },
{
    let is_template = match field_span(v, a, b, "template") {
        Some((x, y)) => {
            let one = x < y && y - x == 1 && v[x] == '1';
            assert(one == (v@.subrange(x as int, y as int) == seq!['1'])) by {
                if x < y && y - x == 1 && v@[x as int] == '1' {
                    assert(v@.subrange(x as int, y as int) =~= seq!['1']);
                }
                if v@.subrange(x as int, y as int) == seq!['1'] {
                    assert(v@.subrange(x as int, y as int).len() == 1);
                    assert(v@.subrange(x as int, y as int)[0] == '1');
                }
            }
            one
        },
        None => false,
    };
    if !is_template {
        return None;
    }
    let id = match field_span(v, a, b, "vmid") {
        Some((x, y)) => match parse_u32_range(v, x, y) {
            Some(id) => id,
            None => {
                return None;
            },
        },
        None => {
            return None;
        },
    };
    let name = match field_span(v, a, b, "name") {
        Some((x, y)) => string_of_range(v, x, y),
        None => {
            let mut n = String::new();
            push_char(&mut n, 'v');
            push_char(&mut n, 'm');
            push_decimal(&mut n, id);
            assert(n@ =~= seq!['v', 'm'] + decimal(id as nat));
            n
        },
    };
    Some((id, name))
}

/// Every template of the cluster as `(vmid, name)`, sorted by VMID, from the
/// JSON that `pvesh get /cluster/resources --type vm --output-format json` prints.
pub fn list_templates(resources_json: &str) -> (r: Vec<(u32, String)>)
    ensures
        entry_views(r@) == sort_by_id(template_entries(json_objects(resources_json@))),
{
    let v = chars_of(resources_json);
    let spans = object_spans(&v);
    let ghost objs = json_objects(v@);
    let mut out: Vec<(u32, String)> = Vec::new();
    let mut k: usize = 0;
    assert(objs.take(0) =~= Seq::<Seq<char>>::empty());
    while k < spans.len()
        invariant
            k <= spans.len(),
            objs == json_objects(v@),
            spans@.len() == objs.len(),
            forall|j: int|
                #![trigger spans@[j]]
                0 <= j < spans@.len() ==> {
                    &&& spans@[j].0 <= spans@[j].1 <= v.len()
                    &&& objs[j] == v@.subrange(spans@[j].0 as int, spans@[j].1 as int)
                },
            entry_views(out@) == sort_by_id(template_entries(objs.take(k as int))),
        decreases spans.len() - k,
    {
        let (a, b) = spans[k];
        let ghost before = entry_views(out@);
        let ghost prev = template_entries(objs.take(k as int));
        assert(objs.take(k + 1).drop_last() =~= objs.take(k as int));
        assert(objs.take(k + 1).last() == objs[k as int]);
        assert(objs[k as int] == v@.subrange(a as int, b as int));
        match template_of(&v, a, b) {
            Some(e) => {
                let id = e.0;
                let mut pos = out.len();
                while pos > 0 && out[pos - 1].0 > id
                    invariant
                        pos <= out.len(),
                        forall|i: int| pos <= i < out@.len() ==> (#[trigger] out@[i]).0 > id,
                    decreases pos,
                {
                    pos = pos - 1;
                }
                proof {
                    let sv = entry_views(out@);
                    lemma_insert_by_id_at(sv, (e.0, e.1@), pos as int);
                }
                let ghost ev = (e.0, e.1@);
                out.insert(pos, e);
                proof {
                    assert(entry_views(out@) =~= before.insert(pos as int, ev));
                    assert(template_entries(objs.take(k + 1)) == prev.push(ev));
                    assert(prev.push(ev).drop_last() =~= prev);
                    assert(sort_by_id(prev.push(ev)) == insert_by_id(sort_by_id(prev), ev));
                }
            },
            None => {
                assert(template_entries(objs.take(k + 1)) == prev);
            },
        }
        k = k + 1;
    }
    assert(objs.take(spans.len() as int) =~= objs);
    out
}

/// The VMID of a resource object: its `vmid` field read as a `u32`.
pub open spec fn object_vmid(obj: Seq<char>) -> Option<u32> {
    match field_value(obj, "vmid"@) {
        Some(t) => parse_u32(t),
        None => None,
    }
}

/// Every VMID that some of the objects carry.
pub open spec fn vmids_of(objs: Seq<Seq<char>>) -> Set<u32> {
    Set::new(|id: u32| exists|k: int| 0 <= k < objs.len() && object_vmid(objs[k]) == Some(id))
}

/// The VMIDs of every VM and template in the cluster resources JSON.
fn cluster_vmids(resources_json: &str) -> (r: HashSet<u32>)
    ensures
        r@ == vmids_of(json_objects(resources_json@)),
{
    broadcast use vstd::std_specs::hash::group_hash_axioms;

    let v = chars_of(resources_json);
    let spans = object_spans(&v);
    let ghost objs = json_objects(v@);
    let mut ids: HashSet<u32> = HashSet::new();
    let mut k: usize = 0;
    assert(vmids_of(objs.take(0)) =~= Set::<u32>::empty());
    while k < spans.len()
        invariant
            k <= spans.len(),
            objs == json_objects(v@),
            spans@.len() == objs.len(),
            forall|j: int|
                #![trigger spans@[j]]
                0 <= j < spans@.len() ==> {
                    &&& spans@[j].0 <= spans@[j].1 <= v.len()
                    &&& objs[j] == v@.subrange(spans@[j].0 as int, spans@[j].1 as int)
                },
            ids@ == vmids_of(objs.take(k as int)),
        decreases spans.len() - k,
    {
        let (a, b) = spans[k];
        let ghost before = ids@;
        let found = match field_span(&v, a, b, "vmid") {
            Some((x, y)) => parse_u32_range(&v, x, y),
            None => None,
        };
        assert(found == object_vmid(objs[k as int]));
        match found {
            Some(id) => {
                ids.insert(id);
            },
            None => {},
        }
        proof {
            let next = objs.take(k + 1);
            assert forall|id: u32| #[trigger] vmids_of(next).contains(id) == ids@.contains(id) by {
                if vmids_of(next).contains(id) {
                    let j = choose|j: int| 0 <= j < next.len() && object_vmid(next[j]) == Some(id);
                    if j < k {
                        assert(objs.take(k as int)[j] == next[j]);
                        assert(vmids_of(objs.take(k as int)).contains(id));
                    }
                }
                if before.contains(id) {
                    let j = choose|j: int|
                        0 <= j < objs.take(k as int).len() && object_vmid(objs.take(k as int)[j])
                            == Some(id);
                    assert(next[j] == objs.take(k as int)[j]);
                }
                if found == Some(id) {
                    assert(next[k as int] == objs[k as int]);
                }
            }
            assert(ids@ =~= vmids_of(next));
        }
        k = k + 1;
    }
    assert(objs.take(spans.len() as int) =~= objs);
    ids
}

/// The lowest VMID `>= start` that no VM or template of the cluster uses, read
/// from the resources JSON; `None` when every VMID from `start` up is taken
/// (the caller then falls back to the cluster's own next id).
pub fn next_free_vmid_from(start: u32, resources_json: &str) -> (r: Option<u32>)
    ensures
        ({
            let used = vmids_of(json_objects(resources_json@));
            match r {
                Some(c) => start <= c && !used.contains(c) && forall|x: u32|
                    start <= x < c ==> used.contains(x),
                None => forall|x: u32| start <= x ==> used.contains(x),
            }
        }),
{
    broadcast use vstd::std_specs::hash::group_hash_axioms;

    let used = cluster_vmids(resources_json);
    let mut candidate = start;
    while used.contains(&candidate)
        invariant
            start <= candidate,
            used@ == vmids_of(json_objects(resources_json@)),
            forall|x: u32| start <= x < candidate ==> used@.contains(x),
        decreases u32::MAX - candidate,
    {
        if candidate == u32::MAX {
            return None;
        }
        candidate = candidate + 1;
    }
    Some(candidate)
}

// ---------------------------------------------------------------------------
// Line-oriented listings
// ---------------------------------------------------------------------------

/// The spans of the lines of `v`, as [`split_lines`] cuts them.
pub fn line_spans(v: &Vec<char>) -> (r: Vec<(usize, usize)>)
    ensures
        spans_text(v@, r@) == split_lines(v@),
        forall|k: int| 0 <= k < r@.len() ==> (#[trigger] r@[k]).0 <= r@[k].1 <= v.len(),
{
    let mut out: Vec<(usize, usize)> = Vec::new();
    let mut p: usize = 0;
    assert(v@.skip(0) =~= v@);
    loop
        invariant
            p <= v.len(),
            spans_text(v@, out@) + split_lines(v@.skip(p as int)) == split_lines(v@),
            forall|k: int| 0 <= k < out@.len() ==> (#[trigger] out@[k]).0 <= out@[k].1 <= v.len(),
        decreases v.len() - p,
    {
        let e = find_char_in_range(v, p, v.len(), '\n');
        proof {
            lemma_split_lines_step(v@, p as int, e as int);
        }
        let ghost before = spans_text(v@, out@);
        out.push((p, e));
        assert(spans_text(v@, out@) =~= before + seq![v@.subrange(p as int, e as int)]);
        if e == v.len() {
            assert(spans_text(v@, out@) =~= split_lines(v@));
            return out;
        }
        p = e + 1;
    }
}

/// Whether a line after the header of `qm list` output starts with the VMID.
pub open spec fn vmid_listed(lines: Seq<Seq<char>>, vmid: u32) -> bool {
    exists|k: int| 1 <= k < lines.len() && first_word(lines[k]) == Some(decimal(vmid as nat))
}

/// Whether `v[a..b]` equals `w`.
fn range_eq(v: &Vec<char>, a: usize, b: usize, w: &Vec<char>) -> (r: bool)
    requires
        a <= b <= v.len(),
    ensures
        r == (v@.subrange(a as int, b as int) == w@),
{
    if b - a != w.len() {
        return false;
    }
    let mut i: usize = 0;
    while i < w.len()
        invariant
            a <= b <= v.len(),
            b - a == w.len(),
            i <= w.len(),
            forall|j: int| 0 <= j < i ==> v@[a + j] == w@[j],
        decreases w.len() - i,
    {
        if v[a + i] != w[i] {
            assert(v@.subrange(a as int, b as int)[i as int] != w@[i as int]);
            return false;
        }
        i = i + 1;
    }
    assert(v@.subrange(a as int, b as int) =~= w@);
    true
}

/// Whether `qm list` output lists the VMID (the first word of a line after the header).
pub fn vmid_exists(qm_list_output: &str, vmid: u32) -> (r: bool)
    ensures
        r == vmid_listed(split_lines(qm_list_output@), vmid),
{
    let v = chars_of(qm_list_output);
    let spans = line_spans(&v);
    let ghost lines = split_lines(v@);
    let target = chars_of(crate::text::decimal_string(vmid).as_str());
    let mut k: usize = 1;
    while k < spans.len()
        invariant
            1 <= k,
            v@ == qm_list_output@,
            lines == split_lines(v@),
            spans_text(v@, spans@) == lines,
            forall|j: int| 0 <= j < spans@.len() ==> (#[trigger] spans@[j]).0 <= spans@[j].1 <= v.len(),
            target@ == decimal(vmid as nat),
            forall|j: int| 1 <= j < k && j < lines.len() ==> first_word(lines[j]) != Some(
                decimal(vmid as nat),
            ),
        decreases spans.len() - k,
    {
        let (a, b) = spans[k];
        assert(lines[k as int] == v@.subrange(a as int, b as int));
        match first_word_range(&v, a, b) {
            Some((x, y)) => {
                if range_eq(&v, x, y, &target) {
                    assert(1 <= k < lines.len() && first_word(lines[k as int]) == Some(
                        decimal(vmid as nat),
                    ));
                    return true;
                }
            },
            None => {},
        }
        k = k + 1;
    }
    false
}

/// The first words of the lines, in order, for the lines that have one.
pub open spec fn first_words(lines: Seq<Seq<char>>) -> Seq<Seq<char>>
    decreases lines.len(),
{
    if lines.len() == 0 {
        Seq::empty()
    } else {
        let prev = first_words(lines.drop_last());
        match first_word(lines.last()) {
            Some(w) => prev.push(w),
            None => prev,
        }
    }
}

pub open spec fn string_views(s: Seq<String>) -> Seq<Seq<char>> {
    s.map_values(|x: String| x@)
}

/// The storage names in `pvesm status` output: the first word of each line after the header.
pub fn list_storages(pvesm_status_output: &str) -> (r: Vec<String>)
    ensures
        string_views(r@) == first_words(split_lines(pvesm_status_output@).skip(1)),
{
    let v = chars_of(pvesm_status_output);
    let spans = line_spans(&v);
    let ghost lines = split_lines(v@);
    let mut names: Vec<String> = Vec::new();
    let mut k: usize = 1;
    proof {
        crate::text::lemma_split_lines_nonempty(v@);
    }
    assert(lines.subrange(1, 1) =~= Seq::<Seq<char>>::empty());
    while k < spans.len()
        invariant
            1 <= k <= spans.len(),
            lines == split_lines(v@),
            spans_text(v@, spans@) == lines,
            forall|j: int| 0 <= j < spans@.len() ==> (#[trigger] spans@[j]).0 <= spans@[j].1 <= v.len(),
            string_views(names@) == first_words(lines.subrange(1, k as int)),
        decreases spans.len() - k,
    {
        let (a, b) = spans[k];
        assert(lines[k as int] == v@.subrange(a as int, b as int));
        let ghost before = string_views(names@);
        assert(lines.subrange(1, k + 1).drop_last() =~= lines.subrange(1, k as int));
        match first_word_range(&v, a, b) {
            Some((x, y)) => {
                names.push(string_of_range(&v, x, y));
                assert(string_views(names@) =~= before.push(v@.subrange(x as int, y as int)));
            },
            None => {},
        }
        k = k + 1;
    }
    assert(lines.subrange(1, spans.len() as int) =~= lines.skip(1));
    names
}

/// `s` without its leading and trailing `c` characters (`str::trim_matches`).
pub open spec fn strip_char(s: Seq<char>, c: char) -> Seq<char>
    decreases s.len(),
{
    if s.len() > 0 && s[0] == c {
        strip_char(s.drop_first(), c)
    } else if s.len() > 0 && s.last() == c {
        strip_char(s.drop_last(), c)
    } else {
        s
    }
}

/// The next free VMID from `pvesh get /cluster/nextid --output-format text`:
/// the output trimmed, stripped of `"` at both ends, read as a `u32`.
pub fn next_free_vmid(nextid_output: &str) -> (r: Option<u32>)
    ensures
        r == parse_u32(strip_char(trim(nextid_output@), '"')),
{
    let v = chars_of(nextid_output);
    assert(v@.subrange(0, v.len() as int) =~= v@);
    let (mut a, mut b) = trim_range(&v, 0, v.len());
    while a < b && (v[a] == '"' || v[b - 1] == '"')
        invariant
            a <= b <= v.len(),
            strip_char(trim(v@), '"') == strip_char(v@.subrange(a as int, b as int), '"'),
        decreases b - a,
    {
        if v[a] == '"' {
            assert(v@.subrange(a as int, b as int).drop_first() =~= v@.subrange(a + 1, b as int));
            a = a + 1;
        } else {
            assert(v@.subrange(a as int, b as int).drop_last() =~= v@.subrange(a as int, b - 1));
            b = b - 1;
        }
    }
    parse_u32_range(&v, a, b)
}

/// A VMID counts as listed in `qm list` output exactly when some line after
/// the header has the VMID's decimal text, as a whole word, for its first word.
pub proof fn lemma_vmid_listed_whole_word(lines: Seq<Seq<char>>, vmid: u32)
    ensures
        vmid_listed(lines, vmid) <==> exists|k: int|
            1 <= k < lines.len() && #[trigger] first_word(lines[k]) == Some(decimal(vmid as nat)),
{
}

/// When every line after the header starts with the decimal text of a VMID
/// (`ids[k]` for line `k`), a VMID counts as listed exactly when it is one of
/// those VMIDs: another VMID that merely shares leading digits (1000 for 100)
/// does not count.
pub proof fn lemma_vmid_listed_by_ids(lines: Seq<Seq<char>>, ids: Seq<u32>, vmid: u32)
    requires
        ids.len() == lines.len(),
        forall|k: int| 1 <= k < lines.len() ==> #[trigger] first_word(lines[k]) == Some(
            decimal(ids[k] as nat),
        ),
    ensures
        vmid_listed(lines, vmid) <==> exists|k: int| 1 <= k < ids.len() && #[trigger] ids[k] == vmid,
{
    if vmid_listed(lines, vmid) {
        let k = choose|k: int|
            1 <= k < lines.len() && #[trigger] first_word(lines[k]) == Some(decimal(vmid as nat));
        crate::text::lemma_decimal(ids[k] as nat);
        crate::text::lemma_decimal(vmid as nat);
        assert(ids[k] == vmid);
    }
    if exists|k: int| 1 <= k < ids.len() && #[trigger] ids[k] == vmid {
        let k = choose|k: int| 1 <= k < ids.len() && #[trigger] ids[k] == vmid;
        assert(first_word(lines[k]) == Some(decimal(vmid as nat)));
    }
}

/// Every VMID that a top-level object of the resources JSON carries in its
/// `vmid` field counts as used, whatever the object's other fields (VM,
/// template or container); and nothing else does.
pub proof fn lemma_used_vmids_are_every_vmid_field(s: Seq<char>, id: u32)
    ensures
        vmids_of(json_objects(s)).contains(id) <==> exists|k: int|
            0 <= k < json_objects(s).len() && (#[trigger] field_value(json_objects(s)[k], "vmid"@)
                matches Some(t) && parse_u32(t) == Some(id)),
{
    let objs = json_objects(s);
    if vmids_of(objs).contains(id) {
        let k = choose|k: int| 0 <= k < objs.len() && object_vmid(objs[k]) == Some(id);
        assert(field_value(objs[k], "vmid"@) matches Some(t) && parse_u32(t) == Some(id));
    }
    if exists|k: int|
        0 <= k < objs.len() && (#[trigger] field_value(objs[k], "vmid"@) matches Some(t) && parse_u32(
            t,
        ) == Some(id)) {
        let k = choose|k: int|
            0 <= k < objs.len() && (#[trigger] field_value(objs[k], "vmid"@) matches Some(t)
                && parse_u32(t) == Some(id));
        assert(object_vmid(objs[k]) == Some(id));
    }
}

} // verus!
