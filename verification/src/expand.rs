//! Path expansion, the decode-side inverse of key folding: each object entry
//! whose key is an unquoted dotted chain of identifiers is rebuilt as nested
//! objects, merging with what is already there. Object-object collisions
//! merge recursively; any other collision is an error in strict mode and an
//! overwrite otherwise.

use vstd::prelude::*;

verus! {

use crate::events::{NodeValue, ObjectNode, NodeModel, node_model, node_arr_model, node_obj_model,
    lemma_node_arr_model, lemma_node_obj_model, lemma_node_obj_model_push};
use crate::value::clone_primitive;
use crate::keys::{is_ident_segment, chars_identifier_segment};
use crate::error::{Result, ToonError};
use crate::text::contains_char;

/// Split `s` at every dot; no trimming, empty pieces kept.
pub open spec fn dot_split_from(s: Seq<char>, i: int, buf: Seq<char>, acc: Seq<Seq<char>>) -> Seq<
    Seq<char>,
>
    decreases s.len() - i,
{
    if i < 0 {
        acc
    } else if i >= s.len() {
        acc.push(buf)
    } else if s[i] == '.' {
        dot_split_from(s, i + 1, Seq::empty(), acc.push(buf))
    } else {
        dot_split_from(s, i + 1, buf.push(s[i]), acc)
    }
}

/// The dot-separated segments of a key; a key without dots is one segment.
pub open spec fn dot_segments(s: Seq<char>) -> Seq<Seq<char>> {
    dot_split_from(s, 0, Seq::empty(), Seq::empty())
}

/// Split a key at dots into its segments.
pub fn split_key_at_dots(cs: &Vec<char>) -> (r: Vec<Vec<char>>)
    ensures
        r@.map_values(|v: Vec<char>| v@) == dot_segments(cs@),
{
    let mut acc: Vec<Vec<char>> = Vec::new();
    let mut buf: Vec<char> = Vec::new();
    let mut i: usize = 0;
    proof {
        assert(buf@ =~= Seq::<char>::empty());
        assert(acc@.map_values(|v: Vec<char>| v@) =~= Seq::<Seq<char>>::empty());
    }
    while i < cs.len()
        invariant
            0 <= i <= cs@.len(),
            dot_segments(cs@) == dot_split_from(
                cs@,
                i as int,
                buf@,
                acc@.map_values(|v: Vec<char>| v@),
            ),
        decreases cs.len() - i,
    {
        let ghost acc0 = acc@.map_values(|v: Vec<char>| v@);
        if cs[i] == '.' {
            acc.push(buf);
            buf = Vec::new();
            proof {
                assert(acc@.map_values(|v: Vec<char>| v@) =~= acc0.push(acc@.last()@));
                assert(buf@ =~= Seq::<char>::empty());
            }
        } else {
            buf.push(cs[i]);
        }
        i += 1;
    }
    let ghost acc0 = acc@.map_values(|v: Vec<char>| v@);
    acc.push(buf);
    proof {
        assert(acc@.map_values(|v: Vec<char>| v@) =~= acc0.push(acc@.last()@));
    }
    acc
}

/// May two colliding values merge? Only two objects can.
pub open spec fn can_merge_model(left: NodeModel, right: NodeModel) -> bool {
    left matches NodeModel::Obj { .. } && right matches NodeModel::Obj { .. }
}

/// Position of `key` among the entries, if present.
pub open spec fn entry_index_of(entries: Seq<(Seq<char>, NodeModel)>, key: Seq<char>) -> Option<
    int,
>
    decreases entries.len(),
{
    if entries.len() == 0 {
        None
    } else if entries[0].0 == key {
        Some(0)
    } else {
        match entry_index_of(entries.drop_first(), key) {
            Option::None => None,
            Option::Some(i) => Some(i + 1),
        }
    }
}

proof fn lemma_entry_index_bounds(entries: Seq<(Seq<char>, NodeModel)>, key: Seq<char>)
    ensures
        entry_index_of(entries, key) matches Some(i) ==> 0 <= i < entries.len() && entries[i].0
            == key,
    decreases entries.len(),
{
    if entries.len() > 0 {
        lemma_entry_index_bounds(entries.drop_first(), key);
    }
}

/// Merge the entries of `source` into `target`, key by key: object-object
/// collisions merge recursively, any other collision fails in strict mode
/// and is overwritten otherwise.
pub open spec fn merge_entries_model(
    target: Seq<(Seq<char>, NodeModel)>,
    source: Seq<(Seq<char>, NodeModel)>,
    strict: bool,
) -> Option<Seq<(Seq<char>, NodeModel)>>
    decreases source,
{
    if source.len() == 0 {
        Some(target)
    } else {
        let key = source[0].0;
        let value = source[0].1;
        let step = merge_one_model(target, key, value, strict);
        match step {
            Option::None => None,
            Option::Some(t2) => merge_entries_model(t2, source.drop_first(), strict),
        }
    }
}

/// Place one key-value pair into `target` under the merge policy.
pub open spec fn merge_one_model(
    target: Seq<(Seq<char>, NodeModel)>,
    key: Seq<char>,
    value: NodeModel,
    strict: bool,
) -> Option<Seq<(Seq<char>, NodeModel)>>
    decreases value,
{
    match entry_index_of(target, key) {
        Option::Some(idx) => {
            let existing = target[idx].1;
            if can_merge_model(existing, value) {
                match merge_entries_model(existing->Obj_entries, value->Obj_entries, strict) {
                    Option::None => None,
                    Option::Some(merged) => Some(
                        target.update(
                            idx,
                            (key, NodeModel::Obj { entries: merged, quoted: existing->Obj_quoted }),
                        ),
                    ),
                }
            } else if strict {
                None
            } else {
                Some(target.update(idx, (key, value)))
            }
        },
        Option::None => Some(target.push((key, value))),
    }
}

/// An empty object node model.
pub open spec fn empty_obj_model() -> NodeModel {
    NodeModel::Obj { entries: Seq::empty(), quoted: Seq::empty() }
}

/// Insert `value` along a segment path, creating intermediate objects; a
/// non-object met on the way fails in strict mode and is replaced otherwise.
pub open spec fn insert_path_model(
    entries: Seq<(Seq<char>, NodeModel)>,
    segments: Seq<Seq<char>>,
    value: NodeModel,
    strict: bool,
) -> Option<Seq<(Seq<char>, NodeModel)>>
    decreases segments.len(),
{
    if segments.len() == 0 {
        Some(entries)
    } else if segments.len() == 1 {
        merge_one_model(entries, segments[0], value, strict)
    } else {
        let key = segments[0];
        match entry_index_of(entries, key) {
            Option::Some(idx) => {
                let existing = entries[idx].1;
                if !(existing matches NodeModel::Obj { .. }) && strict {
                    None
                } else {
                    let base = if existing matches NodeModel::Obj { .. } {
                        existing
                    } else {
                        empty_obj_model()
                    };
                    match insert_path_model(
                        base->Obj_entries,
                        segments.drop_first(),
                        value,
                        strict,
                    ) {
                        Option::None => None,
                        Option::Some(inner) => Some(
                            entries.update(
                                idx,
                                (key, NodeModel::Obj { entries: inner, quoted: base->Obj_quoted }),
                            ),
                        ),
                    }
                }
            },
            Option::None => {
                match insert_path_model(Seq::empty(), segments.drop_first(), value, strict) {
                    Option::None => None,
                    Option::Some(inner) => Some(
                        entries.push(
                            (key, NodeModel::Obj { entries: inner, quoted: Seq::empty() }),
                        ),
                    ),
                }
            },
        }
    }
}

/// Is every dot segment of the key a bare identifier?
pub open spec fn all_ident_segments(segs: Seq<Seq<char>>) -> bool {
    forall|i: int| 0 <= i < segs.len() ==> is_ident_segment(#[trigger] segs[i])
}

/// Does this entry expand: an unquoted key with a dot whose segments are all
/// identifiers?
pub open spec fn key_expands(key: Seq<char>, quoted: Seq<Seq<char>>) -> bool {
    &&& key.contains('.')
    &&& !quoted.contains(key)
    &&& all_ident_segments(dot_segments(key))
}

/// Expand one object's entries, front to back, into `acc`.
pub open spec fn expand_entries_model(
    remaining: Seq<(Seq<char>, NodeModel)>,
    quoted: Seq<Seq<char>>,
    acc: Seq<(Seq<char>, NodeModel)>,
    strict: bool,
) -> Option<Seq<(Seq<char>, NodeModel)>>
    decreases remaining, 1int,
{
    if remaining.len() == 0 {
        Some(acc)
    } else {
        let key = remaining[0].0;
        match expand_node_model(remaining[0].1, strict) {
            Option::None => None,
            Option::Some(value) => {
                let step = if key_expands(key, quoted) {
                    insert_path_model(acc, dot_segments(key), value, strict)
                } else {
                    merge_one_model(acc, key, value, strict)
                };
                match step {
                    Option::None => None,
                    Option::Some(acc2) => expand_entries_model(
                        remaining.drop_first(),
                        quoted,
                        acc2,
                        strict,
                    ),
                }
            },
        }
    }
}

/// Expand every object in the tree; expanded objects carry no quoted-key
/// marks of their own.
pub open spec fn expand_node_model(m: NodeModel, strict: bool) -> Option<NodeModel>
    decreases m, 2int,
{
    match m {
        NodeModel::Prim(p) => Some(NodeModel::Prim(p)),
        NodeModel::Arr(items) => match expand_items_model(items, strict) {
            Option::None => None,
            Option::Some(out) => Some(NodeModel::Arr(out)),
        },
        NodeModel::Obj { entries, quoted } => match expand_entries_model(
            entries,
            quoted,
            Seq::empty(),
            strict,
        ) {
            Option::None => None,
            Option::Some(out) => Some(NodeModel::Obj { entries: out, quoted: Seq::empty() }),
        },
    }
}

/// Expand an array's items, in order.
pub open spec fn expand_items_model(items: Seq<NodeModel>, strict: bool) -> Option<Seq<NodeModel>>
    decreases items, 1int,
{
    if items.len() == 0 {
        Some(Seq::empty())
    } else {
        match expand_node_model(items[0], strict) {
            Option::None => None,
            Option::Some(h) => match expand_items_model(items.drop_first(), strict) {
                Option::None => None,
                Option::Some(t) => Some(seq![h] + t),
            },
        }
    }
}

/// A copy of a node tree, with the same model.
#[verifier::loop_isolation(false)]
pub fn clone_node(v: &NodeValue) -> (r: NodeValue)
    ensures
        node_model(r) == node_model(*v),
    decreases *v,
{
    match v {
        NodeValue::Primitive(p) => NodeValue::Primitive(clone_primitive(p)),
        NodeValue::Array(items) => {
            let mut out: Vec<NodeValue> = Vec::new();
            let mut i: usize = 0;
            while i < items.len()
                invariant
                    0 <= i <= items.len(),
                    out@.len() == i,
                    forall|k: int|
                        0 <= k < i ==> node_model(#[trigger] out@[k]) == node_model(items@[k]),
                decreases items.len() - i,
            {
                proof {
                    assert(decreases_to!(*v => *items));
                    assert(decreases_to!(items@ => items@[i as int]));
                }
                out.push(clone_node(&items[i]));
                i += 1;
            }
            proof {
                lemma_node_arr_model(out@);
                lemma_node_arr_model(items@);
                assert(node_arr_model(out@) =~= node_arr_model(items@));
            }
            NodeValue::Array(out)
        },
        NodeValue::Object(o) => {
            let mut out: Vec<(String, NodeValue)> = Vec::new();
            let mut i: usize = 0;
            while i < o.entries.len()
                invariant
                    0 <= i <= o.entries.len(),
                    out@.len() == i,
                    forall|k: int|
                        0 <= k < i ==> (#[trigger] out@[k]).0@ == o.entries@[k].0@ && node_model(
                            out@[k].1,
                        ) == node_model(o.entries@[k].1),
                decreases o.entries.len() - i,
            {
                proof {
                    assert(decreases_to!(*v => v->Object_0));
                    assert(decreases_to!(o.entries@ => o.entries@[i as int]));
                    assert(decreases_to!(o.entries@[i as int] => o.entries@[i as int].1));
                }
                let key = o.entries[i].0.clone();
                let val = clone_node(&o.entries[i].1);
                out.push((key, val));
                i += 1;
            }
            let mut quoted: Vec<String> = Vec::new();
            let mut j: usize = 0;
            while j < o.quoted_keys.len()
                invariant
                    0 <= j <= o.quoted_keys.len(),
                    quoted@.len() == j,
                    forall|k: int| 0 <= k < j ==> (#[trigger] quoted@[k])@ == o.quoted_keys@[k]@,
                decreases o.quoted_keys.len() - j,
            {
                quoted.push(o.quoted_keys[j].clone());
                j += 1;
            }
            proof {
                lemma_node_obj_model(out@);
                lemma_node_obj_model(o.entries@);
                assert(node_obj_model(out@) =~= node_obj_model(o.entries@));
                assert(quoted@.map_values(|s: String| s@) =~= o.quoted_keys@.map_values(
                    |s: String| s@,
                ));
            }
            NodeValue::Object(ObjectNode { entries: out, quoted_keys: quoted })
        },
    }
}

/// Position of `key` among the entries, if present.
fn find_entry_index(entries: &Vec<(String, NodeValue)>, key: &String) -> (r: Option<usize>)
    ensures
        match r {
            Option::Some(i) => entry_index_of(node_obj_model(entries@), key@) == Some(i as int)
                && i < entries@.len() && entries@[i as int].0@ == key@,
            Option::None => entry_index_of(node_obj_model(entries@), key@) is None,
        },
{
    let mut i: usize = 0;
    while i < entries.len()
        invariant
            0 <= i <= entries@.len(),
            forall|k: int| 0 <= k < i ==> (#[trigger] entries@[k]).0@ != key@,
        decreases entries.len() - i,
    {
        if entries[i].0 == *key {
            proof {
                lemma_node_obj_model(entries@);
                lemma_entry_index_found(node_obj_model(entries@), key@, i as int);
            }
            return Some(i);
        }
        i += 1;
    }
    proof {
        lemma_node_obj_model(entries@);
        lemma_entry_index_missing(node_obj_model(entries@), key@);
    }
    None
}

proof fn lemma_entry_index_found(entries: Seq<(Seq<char>, NodeModel)>, key: Seq<char>, i: int)
    requires
        0 <= i < entries.len(),
        entries[i].0 == key,
        forall|k: int| 0 <= k < i ==> (#[trigger] entries[k]).0 != key,
    ensures
        entry_index_of(entries, key) == Some(i),
    decreases i,
{
    if i > 0 {
        lemma_entry_index_found(entries.drop_first(), key, i - 1);
    }
}

proof fn lemma_entry_index_missing(entries: Seq<(Seq<char>, NodeModel)>, key: Seq<char>)
    requires
        forall|k: int| 0 <= k < entries.len() ==> (#[trigger] entries[k]).0 != key,
    ensures
        entry_index_of(entries, key) is None,
    decreases entries.len(),
{
    if entries.len() > 0 {
        lemma_entry_index_missing(entries.drop_first(), key);
    }
}

/// Updating one exec entry updates the model at the same index.
proof fn lemma_obj_model_update(s: Seq<(String, NodeValue)>, i: int, e: (String, NodeValue))
    requires
        0 <= i < s.len(),
    ensures
        node_obj_model(s.update(i, e)) == node_obj_model(s).update(i, (e.0@, node_model(e.1))),
{
    lemma_node_obj_model(s.update(i, e));
    lemma_node_obj_model(s);
    assert(node_obj_model(s.update(i, e)) =~= node_obj_model(s).update(
        i,
        (e.0@, node_model(e.1)),
    ));
}

/// Replace the entry at `idx` with `e`.
fn set_entry(entries: &mut Vec<(String, NodeValue)>, idx: usize, e: (String, NodeValue))
    requires
        idx < old(entries)@.len(),
    ensures
        final(entries)@ == old(entries)@.update(idx as int, e),
{
    entries.remove(idx);
    entries.insert(idx, e);
    proof {
        assert(final(entries)@ =~= old(entries)@.update(idx as int, e));
    }
}

/// Place one key-value pair into `target` under the merge policy.
///
/// Fails exactly where the policy does: a strict-mode collision of anything
/// but two objects, at any depth.
fn merge_one(
    target: &mut Vec<(String, NodeValue)>,
    key: String,
    value: NodeValue,
    strict: bool,
) -> (r: Result<()>)
    ensures
        match r {
            Result::Ok(_) => merge_one_model(
                node_obj_model(old(target)@),
                key@,
                node_model(value),
                strict,
            ) == Some(node_obj_model(final(target)@)),
            Result::Err(_) => merge_one_model(
                node_obj_model(old(target)@),
                key@,
                node_model(value),
                strict,
            ) is None,
        },
    decreases value, 1int,
{
    let ghost tgt0 = node_obj_model(target@);
    proof {
        lemma_entry_index_bounds(tgt0, key@);
        lemma_node_obj_model(target@);
    }
    match find_entry_index(target, &key) {
        Option::Some(idx) => {
            let both_objects = {
                let a = match &target[idx].1 {
                    NodeValue::Object(_) => true,
                    _ => false,
                };
                let b = match &value {
                    NodeValue::Object(_) => true,
                    _ => false,
                };
                a && b
            };
            if both_objects {
                let (k0, v0) = target.remove(idx);
                let mut existing_obj = match v0 {
                    NodeValue::Object(o) => o,
                    _ => {
                        return Err(ToonError::message("Expected object but found primitive"));
                    },
                };
                let ghost value0 = value;
                let source_obj = match value {
                    NodeValue::Object(o) => o,
                    _ => {
                        return Err(ToonError::message("Expected object but found primitive"));
                    },
                };
                proof {
                    assert(decreases_to!(value0 => value0->Object_0));
                    assert(decreases_to!(value0->Object_0 => value0->Object_0.entries));
                }
                match merge_objects(&mut existing_obj.entries, source_obj.entries, strict) {
                    Result::Ok(_) => {},
                    Result::Err(e) => {
                        return Err(e);
                    },
                }
                target.insert(idx, (k0, NodeValue::Object(existing_obj)));
                proof {
                    assert(target@ =~= old(target)@.update(
                        idx as int,
                        target@[idx as int],
                    ));
                    lemma_obj_model_update(old(target)@, idx as int, target@[idx as int]);
                    assert(node_obj_model(target@) =~= tgt0.update(
                        idx as int,
                        (key@, node_model(target@[idx as int].1)),
                    ));
                }
                Ok(())
            } else if strict {
                Err(ToonError::message("Path expansion conflict: cannot merge values"))
            } else {
                let (k0, _) = target.remove(idx);
                target.insert(idx, (k0, value));
                proof {
                    assert(target@ =~= old(target)@.update(idx as int, target@[idx as int]));
                    lemma_obj_model_update(old(target)@, idx as int, target@[idx as int]);
                    assert(node_obj_model(target@) =~= tgt0.update(
                        idx as int,
                        (key@, node_model(target@[idx as int].1)),
                    ));
                }
                Ok(())
            }
        },
        Option::None => {
            target.push((key, value));
            proof {
                lemma_node_obj_model_push(target@.drop_last(), target@.last());
                assert(target@.drop_last() =~= old(target)@);
            }
            Ok(())
        },
    }
}

/// Merge `source`'s entries into `target`, front to back.
#[verifier::loop_isolation(false)]
fn merge_objects(
    target: &mut Vec<(String, NodeValue)>,
    source: Vec<(String, NodeValue)>,
    strict: bool,
) -> (r: Result<()>)
    ensures
        match r {
            Result::Ok(_) => merge_entries_model(
                node_obj_model(old(target)@),
                node_obj_model(source@),
                strict,
            ) == Some(node_obj_model(final(target)@)),
            Result::Err(_) => merge_entries_model(
                node_obj_model(old(target)@),
                node_obj_model(source@),
                strict,
            ) is None,
        },
    decreases source, 2int,
{
    let ghost src_vec = source;
    let ghost src_model = node_obj_model(source@);
    let ghost tgt0 = node_obj_model(old(target)@);
    let mut source = source;
    let ghost mut i: int = 0;
    proof {
        assert(source@ =~= src_vec@.skip(0));
        lemma_node_obj_model_skip(src_vec@, 0);
    }
    while source.len() > 0
        invariant
            0 <= i <= src_vec@.len(),
            source@ =~= src_vec@.skip(i),
            merge_entries_model(tgt0, src_model, strict) == merge_entries_model(
                node_obj_model(target@),
                node_obj_model(source@),
                strict,
            ),
        decreases source@.len(),
    {
        proof {
            lemma_node_obj_model(source@);
            assert(node_obj_model(source@)[0] == (source@[0].0@, node_model(source@[0].1)));
        }
        let ghost source_before = source@;
        let (key, value) = source.remove(0);
        proof {
            assert(value == src_vec@.skip(i)[0].1);
            assert(src_vec@.skip(i)[0] == src_vec@[i]);
            assert(decreases_to!(src_vec => src_vec@));
            assert(decreases_to!(src_vec@ => src_vec@[i]));
            assert(decreases_to!(src_vec@[i] => src_vec@[i].1));
        }
        match merge_one(target, key, value, strict) {
            Result::Ok(_) => {},
            Result::Err(e) => {
                return Err(e);
            },
        }
        proof {
            i = i + 1;
            assert(source@ =~= src_vec@.skip(i));
            assert(node_obj_model(source_before).drop_first() =~= node_obj_model(source@)) by {
                lemma_node_obj_model(source_before);
                lemma_node_obj_model(source@);
                assert(source@ =~= source_before.drop_first());
            }
        }
    }
    proof {
        assert(node_obj_model(source@) =~= Seq::<(Seq<char>, NodeModel)>::empty());
    }
    Ok(())
}

/// [`node_obj_model`] of a suffix is the suffix of the model.
pub proof fn lemma_node_obj_model_skip(s: Seq<(String, NodeValue)>, i: int)
    requires
        0 <= i <= s.len(),
    ensures
        node_obj_model(s).skip(i) == node_obj_model(s.skip(i)),
{
    lemma_node_obj_model(s);
    lemma_node_obj_model(s.skip(i));
    assert(node_obj_model(s).skip(i) =~= node_obj_model(s.skip(i)));
}

/// Insert `value` under the path `segments[seg_idx..]`.
fn insert_path_entries(
    entries: &mut Vec<(String, NodeValue)>,
    segments: &Vec<String>,
    seg_idx: usize,
    value: NodeValue,
    strict: bool,
) -> (r: Result<()>)
    requires
        seg_idx <= segments@.len(),
    ensures
        match r {
            Result::Ok(_) => insert_path_model(
                node_obj_model(old(entries)@),
                segments@.map_values(|s: String| s@).skip(seg_idx as int),
                node_model(value),
                strict,
            ) == Some(node_obj_model(final(entries)@)),
            Result::Err(_) => insert_path_model(
                node_obj_model(old(entries)@),
                segments@.map_values(|s: String| s@).skip(seg_idx as int),
                node_model(value),
                strict,
            ) is None,
        },
    decreases segments@.len() - seg_idx,
{
    let ghost segs = segments@.map_values(|s: String| s@).skip(seg_idx as int);
    if seg_idx == segments.len() {
        proof {
            assert(segs.len() == 0);
        }
        return Ok(());
    }
    if seg_idx + 1 == segments.len() {
        proof {
            assert(segs.len() == 1);
            assert(segs[0] == segments@[seg_idx as int]@);
        }
        let key = segments[seg_idx].clone();
        return merge_one(entries, key, value, strict);
    }
    proof {
        assert(segs.len() >= 2);
        assert(segs[0] == segments@[seg_idx as int]@);
        assert(segs.drop_first() =~= segments@.map_values(|s: String| s@).skip(
            seg_idx + 1,
        ));
    }
    let key = segments[seg_idx].clone();
    let ghost ent0 = node_obj_model(entries@);
    proof {
        lemma_entry_index_bounds(ent0, key@);
        lemma_node_obj_model(entries@);
    }
    match find_entry_index(entries, &key) {
        Option::Some(idx) => {
            let is_obj = match &entries[idx].1 {
                NodeValue::Object(_) => true,
                _ => false,
            };
            if !is_obj && strict {
                return Err(
                    ToonError::message(
                        "Path expansion conflict: expected object on the path",
                    ),
                );
            }
            let (k0, v0) = entries.remove(idx);
            let mut base_obj: ObjectNode = match v0 {
                NodeValue::Object(o) => o,
                _ => ObjectNode { entries: Vec::new(), quoted_keys: Vec::new() },
            };
            proof {
                if !is_obj {
                    assert(node_obj_model(base_obj.entries@)
                        =~= Seq::<(Seq<char>, NodeModel)>::empty());
                    assert(base_obj.quoted_keys@.map_values(|s: String| s@)
                        =~= Seq::<Seq<char>>::empty());
                }
            }
            match insert_path_entries(&mut base_obj.entries, segments, seg_idx + 1, value, strict)
                {
                Result::Ok(_) => {},
                Result::Err(e) => {
                    return Err(e);
                },
            }
            entries.insert(idx, (k0, NodeValue::Object(base_obj)));
            proof {
                assert(entries@ =~= old(entries)@.update(idx as int, entries@[idx as int]));
                lemma_obj_model_update(old(entries)@, idx as int, entries@[idx as int]);
                assert(node_obj_model(entries@) =~= ent0.update(
                    idx as int,
                    (key@, node_model(entries@[idx as int].1)),
                ));
            }
            Ok(())
        },
        Option::None => {
            let mut base_obj = ObjectNode { entries: Vec::new(), quoted_keys: Vec::new() };
            proof {
                assert(node_obj_model(base_obj.entries@)
                    =~= Seq::<(Seq<char>, NodeModel)>::empty());
                assert(base_obj.quoted_keys@.map_values(|s: String| s@)
                    =~= Seq::<Seq<char>>::empty());
            }
            match insert_path_entries(&mut base_obj.entries, segments, seg_idx + 1, value, strict)
                {
                Result::Ok(_) => {},
                Result::Err(e) => {
                    return Err(e);
                },
            }
            entries.push((key, NodeValue::Object(base_obj)));
            proof {
                lemma_node_obj_model_push(entries@.drop_last(), entries@.last());
                assert(entries@.drop_last() =~= old(entries)@);
            }
            Ok(())
        },
    }
}

/// Does the quoted-key list contain this key?
fn quoted_contains(quoted: &Vec<String>, key: &String) -> (r: bool)
    ensures
        r == quoted@.map_values(|s: String| s@).contains(key@),
{
    let mut i: usize = 0;
    while i < quoted.len()
        invariant
            0 <= i <= quoted@.len(),
            forall|k: int| 0 <= k < i ==> (#[trigger] quoted@[k])@ != key@,
        decreases quoted.len() - i,
    {
        if quoted[i] == *key {
            proof {
                assert(quoted@.map_values(|s: String| s@)[i as int] == key@);
            }
            return true;
        }
        i += 1;
    }
    proof {
        let m = quoted@.map_values(|s: String| s@);
        assert forall|k: int| 0 <= k < m.len() implies m[k] != key@ by {
            assert(m[k] == quoted@[k]@);
        }
    }
    false
}

/// Expand dotted keys into nested objects (safe mode).
///
/// Fails exactly where the merge policy does in strict mode.
pub fn expand_paths_safe(value: NodeValue, strict: bool) -> (r: Result<NodeValue>)
    ensures
        match r {
            Result::Ok(n) => expand_node_model(node_model(value), strict) == Some(node_model(n)),
            Result::Err(_) => expand_node_model(node_model(value), strict) is None,
        },
{
    expand_node(&value, strict)
}

#[verifier::rlimit(100)]
#[verifier::loop_isolation(false)]
fn expand_node(v: &NodeValue, strict: bool) -> (r: Result<NodeValue>)
    ensures
        match r {
            Result::Ok(n) => expand_node_model(node_model(*v), strict) == Some(node_model(n)),
            Result::Err(_) => expand_node_model(node_model(*v), strict) is None,
        },
    decreases *v,
{
    match v {
        NodeValue::Primitive(p) => Ok(NodeValue::Primitive(clone_primitive(p))),
        NodeValue::Array(items) => {
            let ghost items_model = node_arr_model(items@);
            let mut out: Vec<NodeValue> = Vec::new();
            let mut i: usize = 0;
            proof {
                lemma_node_arr_model(items@);
            }
            while i < items.len()
                invariant
                    0 <= i <= items.len(),
                    out@.len() == i,
                    forall|k: int|
                        0 <= k < i ==> expand_node_model(items_model[k], strict) == Some(
                            node_model(#[trigger] out@[k]),
                        ),
                decreases items.len() - i,
            {
                proof {
                    assert(decreases_to!(*v => *items));
                    assert(decreases_to!(items@ => items@[i as int]));
                }
                match expand_node(&items[i], strict) {
                    Result::Ok(n) => {
                        out.push(n);
                    },
                    Result::Err(e) => {
                        proof {
                            lemma_expand_items_none(items_model, i as int, strict);
                        }
                        return Err(e);
                    },
                }
                i += 1;
            }
            proof {
                lemma_node_arr_model(out@);
                lemma_expand_items_all(items_model, node_arr_model(out@), strict);
            }
            Ok(NodeValue::Array(out))
        },
        NodeValue::Object(o) => {
            let ghost entries_model = node_obj_model(o.entries@);
            let ghost quoted_model = o.quoted_keys@.map_values(|s: String| s@);
            let mut out: Vec<(String, NodeValue)> = Vec::new();
            let mut i: usize = 0;
            proof {
                lemma_node_obj_model(o.entries@);
                assert(entries_model.skip(0) =~= entries_model);
                assert(node_obj_model(out@) =~= Seq::<(Seq<char>, NodeModel)>::empty());
            }
            while i < o.entries.len()
                invariant
                    0 <= i <= o.entries.len(),
                    expand_entries_model(entries_model, quoted_model, Seq::empty(), strict)
                        == expand_entries_model(
                        entries_model.skip(i as int),
                        quoted_model,
                        node_obj_model(out@),
                        strict,
                    ),
                decreases o.entries.len() - i,
            {
                proof {
                    crate::expand::lemma_node_obj_model_skip(o.entries@, i as int);
                    assert(entries_model.skip(i as int)[0] == (o.entries@[i as int].0@, node_model(
                        o.entries@[i as int].1,
                    )));
                    assert(decreases_to!(*v => v->Object_0));
                    assert(decreases_to!(o.entries@ => o.entries@[i as int]));
                    assert(decreases_to!(o.entries@[i as int] => o.entries@[i as int].1));
                }
                let expanded = match expand_node(&o.entries[i].1, strict) {
                    Result::Ok(n) => n,
                    Result::Err(e) => {
                        return Err(e);
                    },
                };
                let key = o.entries[i].0.clone();
                let key_chars = crate::text::chars_of(key.as_str());
                let mut expands = false;
                if contains_char(&key_chars, '.') && !quoted_contains(&o.quoted_keys, &key) {
                    let segs = split_key_at_dots(&key_chars);
                    let mut all_ident = true;
                    let mut j: usize = 0;
                    while j < segs.len()
                        invariant
                            0 <= j <= segs@.len(),
                            segs@.map_values(|x: Vec<char>| x@) == dot_segments(key_chars@),
                            all_ident == (forall|k: int|
                                0 <= k < j ==> is_ident_segment(
                                    #[trigger] dot_segments(key_chars@)[k],
                                )),
                        decreases segs.len() - j,
                    {
                        proof {
                            assert(dot_segments(key_chars@)[j as int] == segs@[j as int]@);
                        }
                        if !chars_identifier_segment(&segs[j]) {
                            all_ident = false;
                        }
                        j += 1;
                    }
                    if all_ident {
                        expands = true;
                        let mut seg_strings: Vec<String> = Vec::new();
                        let mut k: usize = 0;
                        while k < segs.len()
                            invariant
                                0 <= k <= segs@.len(),
                                seg_strings@.len() == k,
                                segs@.map_values(|x: Vec<char>| x@) == dot_segments(key_chars@),
                                forall|m: int|
                                    0 <= m < k ==> (#[trigger] seg_strings@[m])@ == segs@[m]@,
                            decreases segs.len() - k,
                        {
                            seg_strings.push(
                                crate::text::string_from_chars(segs[k].as_slice()),
                            );
                            k += 1;
                        }
                        proof {
                            assert(seg_strings@.map_values(|s: String| s@) =~= dot_segments(
                                key_chars@,
                            ));
                            assert(seg_strings@.map_values(|s: String| s@).skip(0) =~= dot_segments(
                                key_chars@,
                            ));
                            assert(key_expands(key@, quoted_model));
                        }
                        match insert_path_entries(&mut out, &seg_strings, 0, expanded, strict) {
                            Result::Ok(_) => {},
                            Result::Err(e) => {
                                return Err(e);
                            },
                        }
                    } else {
                        proof {
                            assert(!all_ident_segments(dot_segments(key@)));
                            assert(!key_expands(key@, quoted_model));
                        }
                        match merge_one(&mut out, key, expanded, strict) {
                            Result::Ok(_) => {},
                            Result::Err(e) => {
                                return Err(e);
                            },
                        }
                    }
                } else {
                    proof {
                        assert(!key_expands(key@, quoted_model));
                    }
                    match merge_one(&mut out, key, expanded, strict) {
                        Result::Ok(_) => {},
                        Result::Err(e) => {
                            return Err(e);
                        },
                    }
                }
                i += 1;
                proof {
                    assert(entries_model.skip(i - 1).drop_first() =~= entries_model.skip(
                        i as int,
                    ));
                }
            }
            proof {
                assert(entries_model.skip(entries_model.len() as int)
                    =~= Seq::<(Seq<char>, NodeModel)>::empty());
            }
            let out_node = ObjectNode { entries: out, quoted_keys: Vec::new() };
            proof {
                assert(out_node.quoted_keys@.map_values(|s: String| s@)
                    =~= Seq::<Seq<char>>::empty());
            }
            Ok(NodeValue::Object(out_node))
        },
    }
}

/// A failing item makes the whole array expansion fail.
proof fn lemma_expand_items_none(items: Seq<NodeModel>, i: int, strict: bool)
    requires
        0 <= i < items.len(),
        expand_node_model(items[i], strict) is None,
    ensures
        expand_items_model(items, strict) is None,
    decreases items.len(),
{
    if i > 0 {
        lemma_expand_items_none(items.drop_first(), i - 1, strict);
    }
}

/// Item-wise success assembles the expanded array.
proof fn lemma_expand_items_all(items: Seq<NodeModel>, out: Seq<NodeModel>, strict: bool)
    requires
        out.len() == items.len(),
        forall|k: int|
            0 <= k < items.len() ==> expand_node_model(#[trigger] items[k], strict) == Some(
                out[k],
            ),
    ensures
        expand_items_model(items, strict) == Some(out),
    decreases items.len(),
{
    if items.len() > 0 {
        lemma_expand_items_all(items.drop_first(), out.drop_first(), strict);
        assert(seq![out[0]] + out.drop_first() =~= out);
    }
}

} // verus!
