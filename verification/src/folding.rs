//! Key folding, the encode-side inverse of path expansion: a chain of
//! single-entry objects is collapsed into one dotted key, when every segment
//! is a bare identifier and the folded name collides with nothing.

use vstd::prelude::*;

verus! {

use crate::value::{JsonValue, ValueModel, value_model, obj_model, lemma_obj_model, clone_value};
use crate::options::{KeyFoldingMode, ResolvedEncodeOptions};
use crate::keys::{is_ident_segment, chars_identifier_segment};
use crate::text::string_from_chars;

/// What folding one key produced: the dotted key, the object left to encode
/// beneath it (when the chain ends in a non-empty object), the value at the
/// chain's end, and how many segments were folded.
pub struct FoldResult {
    pub folded_key: String,
    pub remainder: Option<JsonValue>,
    pub leaf_value: JsonValue,
    pub segment_count: usize,
}

/// The ghost version of a fold result.
pub ghost struct FoldModel {
    pub folded_key: Seq<char>,
    pub remainder: Option<ValueModel>,
    pub leaf_value: ValueModel,
    pub segment_count: int,
}

/// Walk a single-entry object chain from `key` down, collecting at most
/// `max` segments; returns the segments, the object left beneath the chain
/// (when it ends in a non-empty object), and the chain-end value.
pub open spec fn chain_collect(key: Seq<char>, v: ValueModel, max: int) -> (
    Seq<Seq<char>>,
    Option<ValueModel>,
    ValueModel,
)
    decreases v,
{
    if 1 < max && (v matches ValueModel::Obj { .. }) && v->Obj_0.len() == 1 {
        let sub = chain_collect(v->Obj_0[0].0, v->Obj_0[0].1, max - 1);
        (seq![key] + sub.0, sub.1, sub.2)
    } else {
        match v {
            ValueModel::Obj(entries) => if entries.len() == 0 {
                (seq![key], None, v)
            } else {
                (seq![key], Some(v), v)
            },
            _ => (seq![key], None, v),
        }
    }
}

/// The segments joined with dots.
pub open spec fn dot_join(segs: Seq<Seq<char>>) -> Seq<char>
    decreases segs.len(),
{
    if segs.len() == 0 {
        Seq::empty()
    } else if segs.len() == 1 {
        segs[0]
    } else {
        dot_join(segs.drop_last()) + seq!['.'] + segs.last()
    }
}

/// Is every collected segment a bare identifier?
pub open spec fn all_segments_ident(segs: Seq<Seq<char>>) -> bool {
    forall|i: int| 0 <= i < segs.len() ==> is_ident_segment(#[trigger] segs[i])
}

/// What folding `key: value` yields, if anything: folding must be on, the
/// value an object, the flatten depth at least 2, the chain at least two
/// identifier segments long, and the dotted name must collide neither with
/// a sibling key nor with a dotted key of the original document root.
pub open spec fn try_fold_model(
    key: Seq<char>,
    v: ValueModel,
    siblings: Seq<Seq<char>>,
    key_folding: KeyFoldingMode,
    flatten_depth: int,
    root_literal_keys: Option<Seq<Seq<char>>>,
    path_prefix: Option<Seq<char>>,
) -> Option<FoldModel> {
    if key_folding != KeyFoldingMode::Safe {
        None
    } else if !(v matches ValueModel::Obj { .. }) {
        None
    } else if flatten_depth < 2 {
        None
    } else {
        let c = chain_collect(key, v, flatten_depth);
        if c.0.len() < 2 {
            None
        } else if !all_segments_ident(c.0) {
            None
        } else {
            let folded = dot_join(c.0);
            if siblings.contains(folded) {
                None
            } else {
                let absolute = match path_prefix {
                    Option::Some(p) => p + seq!['.'] + folded,
                    Option::None => folded,
                };
                let blocked = match root_literal_keys {
                    Option::Some(keys) => keys.contains(absolute),
                    Option::None => false,
                };
                if blocked {
                    None
                } else {
                    Some(
                        FoldModel {
                            folded_key: folded,
                            remainder: c.1,
                            leaf_value: c.2,
                            segment_count: c.0.len() as int,
                        },
                    )
                }
            }
        }
    }
}

/// Walk the chain in executable code.
#[verifier::loop_isolation(false)]
fn collect_single_key_chain(start_key: &String, start_value: &JsonValue, max_depth: usize) -> (r: (
    Vec<String>,
    Option<JsonValue>,
    JsonValue,
))
    ensures
        ({
            let c = chain_collect(start_key@, value_model(*start_value), max_depth as int);
            &&& r.0@.map_values(|s: String| s@) == c.0
            &&& match r.1 {
                Option::Some(rem) => c.1 == Some(value_model(rem)),
                Option::None => c.1 is None,
            }
            &&& value_model(r.2) == c.2
            &&& r.0@.len() >= 1
        }),
    decreases *start_value,
{
    let ghost c = chain_collect(start_key@, value_model(*start_value), max_depth as int);
    proof {
        match start_value {
            JsonValue::Object(entries) => {
                lemma_obj_model(entries@);
            },
            _ => {},
        }
    }
    let descend: bool = match start_value {
        JsonValue::Object(entries) => 1 < max_depth && entries.len() == 1,
        _ => false,
    };
    match start_value {
        JsonValue::Object(entries) if descend => {
            proof {
                lemma_obj_model(entries@);
                assert(value_model(*start_value)->Obj_0[0] == (entries@[0].0@, value_model(
                    entries@[0].1,
                )));
                assert(decreases_to!(*start_value => *entries));
                assert(decreases_to!(entries@ => entries@[0]));
                assert(decreases_to!(entries@[0] => entries@[0].1));
            }
            let sub = collect_single_key_chain(&entries[0].0, &entries[0].1, max_depth - 1);
            let (mut segs, tail, leaf) = sub;
            let mut all: Vec<String> = Vec::new();
            all.push(start_key.clone());
            let ghost segs_view = segs@;
            all.append(&mut segs);
            proof {
                assert(all@ =~= seq![all@[0]] + segs_view);
                assert(all@.map_values(|s: String| s@) =~= seq![start_key@]
                    + segs_view.map_values(|s: String| s@));
            }
            (all, tail, leaf)
        },
        _ => {
            let mut segs: Vec<String> = Vec::new();
            segs.push(start_key.clone());
            proof {
                assert(segs@.map_values(|s: String| s@) =~= seq![start_key@]);
            }
            let leaf = clone_value(start_value);
            match start_value {
                JsonValue::Object(entries) => {
                    if entries.len() == 0 {
                        (segs, None, leaf)
                    } else {
                        let rem = clone_value(start_value);
                        (segs, Some(rem), leaf)
                    }
                },
                _ => (segs, None, leaf),
            }
        },
    }
}

/// Fold `key: value` into a dotted key, when the safe-folding rules allow.
#[verifier::rlimit(50)]
#[verifier::loop_isolation(false)]
pub fn try_fold_key_chain(
    key: &String,
    value: &JsonValue,
    siblings: &Vec<String>,
    options: &ResolvedEncodeOptions,
    root_literal_keys: Option<&Vec<String>>,
    path_prefix: Option<&String>,
    flatten_depth: usize,
) -> (r: Option<FoldResult>)
    ensures
        ({
            let spec_r = try_fold_model(
                key@,
                value_model(*value),
                siblings@.map_values(|s: String| s@),
                options.key_folding,
                flatten_depth as int,
                match root_literal_keys {
                    Option::Some(ks) => Some(ks@.map_values(|s: String| s@)),
                    Option::None => None,
                },
                match path_prefix {
                    Option::Some(p) => Some(p@),
                    Option::None => None,
                },
            );
            match r {
                Option::Some(f) => spec_r matches Some(m) && m.folded_key == f.folded_key@ && (
                match f.remainder {
                    Option::Some(ref rem) => m.remainder == Some(value_model(*rem)),
                    Option::None => m.remainder is None,
                }) && m.leaf_value == value_model(f.leaf_value) && m.segment_count
                    == f.segment_count as int,
                Option::None => spec_r is None,
            }
        }),
{
    if !matches!(options.key_folding, KeyFoldingMode::Safe) {
        return None;
    }
    let is_obj = match value {
        JsonValue::Object(_) => true,
        _ => false,
    };
    if !is_obj {
        return None;
    }
    if flatten_depth < 2 {
        return None;
    }

    let (segs, tail, leaf) = collect_single_key_chain(key, value, flatten_depth);
    let ghost c = chain_collect(key@, value_model(*value), flatten_depth as int);

    if segs.len() < 2 {
        return None;
    }

    let mut i: usize = 0;
    while i < segs.len()
        invariant
            0 <= i <= segs@.len(),
            forall|k: int| 0 <= k < i ==> is_ident_segment(#[trigger] c.0[k]),
            segs@.map_values(|s: String| s@) == c.0,
        decreases segs.len() - i,
    {
        proof {
            assert(c.0[i as int] == segs@[i as int]@);
        }
        let seg_chars = crate::text::chars_of(segs[i].as_str());
        if !chars_identifier_segment(&seg_chars) {
            return None;
        }
        i += 1;
    }

    // join the segments with dots
    let mut folded_chars: Vec<char> = Vec::new();
    let mut j: usize = 0;
    proof {
        assert(c.0.take(0) =~= Seq::<Seq<char>>::empty());
        assert(folded_chars@ =~= dot_join(c.0.take(0)));
    }
    while j < segs.len()
        invariant
            0 <= j <= segs@.len(),
            segs@.map_values(|s: String| s@) == c.0,
            folded_chars@ == dot_join(c.0.take(j as int)),
        decreases segs.len() - j,
    {
        let ghost before = folded_chars@;
        if j > 0 {
            folded_chars.push('.');
        }
        let seg_chars = crate::text::chars_of(segs[j].as_str());
        let mut k: usize = 0;
        while k < seg_chars.len()
            invariant
                0 <= k <= seg_chars@.len(),
                seg_chars@ == c.0[j as int],
                folded_chars@ == (if j == 0 {
                    before
                } else {
                    before + seq!['.']
                }) + seg_chars@.take(k as int),
                j < segs@.len(),
                segs@.map_values(|s: String| s@) == c.0,
                before == dot_join(c.0.take(j as int)),
            decreases seg_chars.len() - k,
        {
            folded_chars.push(seg_chars[k]);
            k += 1;
            proof {
                assert(folded_chars@ =~= (if j == 0 {
                    before
                } else {
                    before + seq!['.']
                }) + seg_chars@.take(k as int));
            }
        }
        proof {
            assert(seg_chars@.take(seg_chars@.len() as int) =~= seg_chars@);
            assert(c.0.take(j + 1) =~= c.0.take(j as int).push(c.0[j as int]));
            lemma_dot_join_snoc(c.0.take(j as int), c.0[j as int]);
            if j == 0 {
                assert(folded_chars@ =~= c.0[0]);
            } else {
                assert(folded_chars@ =~= dot_join(c.0.take(j as int)) + seq!['.']
                    + c.0[j as int]);
            }
        }
        j += 1;
    }
    proof {
        assert(c.0.take(c.0.len() as int) =~= c.0);
    }
    let folded_key = string_from_chars(folded_chars.as_slice());

    // a folded name may not shadow a literal sibling key
    let mut s: usize = 0;
    while s < siblings.len()
        invariant
            0 <= s <= siblings@.len(),
            forall|k: int| 0 <= k < s ==> (#[trigger] siblings@[k])@ != folded_key@,
        decreases siblings.len() - s,
    {
        if siblings[s] == folded_key {
            proof {
                assert(siblings@.map_values(|x: String| x@)[s as int] == folded_key@);
            }
            return None;
        }
        s += 1;
    }
    proof {
        let m = siblings@.map_values(|x: String| x@);
        assert forall|k: int| 0 <= k < m.len() implies m[k] != folded_key@ by {
            assert(m[k] == siblings@[k]@);
        }
        assert(!m.contains(folded_key@));
    }

    // nor a dotted key that stood at the document root before folding
    let absolute_path: String = match path_prefix {
        Option::Some(prefix) => {
            let mut p = prefix.clone();
            p.append(".");
            p.append(folded_key.as_str());
            proof {
                reveal_strlit(".");
                assert(p@ =~= prefix@ + seq!['.'] + folded_key@);
            }
            p
        },
        Option::None => folded_key.clone(),
    };
    match root_literal_keys {
        Option::Some(root_keys) => {
            let mut t: usize = 0;
            while t < root_keys.len()
                invariant
                    0 <= t <= root_keys@.len(),
                    forall|k: int| 0 <= k < t ==> (#[trigger] root_keys@[k])@ != absolute_path@,
                decreases root_keys.len() - t,
            {
                if root_keys[t] == absolute_path {
                    proof {
                        assert(root_keys@.map_values(|x: String| x@)[t as int]
                            == absolute_path@);
                    }
                    return None;
                }
                t += 1;
            }
            proof {
                let m = root_keys@.map_values(|x: String| x@);
                assert forall|k: int| 0 <= k < m.len() implies m[k] != absolute_path@ by {
                    assert(m[k] == root_keys@[k]@);
                }
                assert(!m.contains(absolute_path@));
            }
        },
        Option::None => {},
    }

    let segment_count = segs.len();
    Some(FoldResult { folded_key, remainder: tail, leaf_value: leaf, segment_count })
}

proof fn lemma_dot_join_snoc(segs: Seq<Seq<char>>, s: Seq<char>)
    ensures
        dot_join(segs.push(s)) == if segs.len() == 0 {
            s
        } else {
            dot_join(segs) + seq!['.'] + s
        },
{
    assert(segs.push(s).last() == s);
    assert(segs.push(s).drop_last() =~= segs);
    if segs.len() == 0 {
        assert(segs.push(s).len() == 1);
        assert(segs.push(s)[0] == s);
    }
}

} // verus!
