//! The event builder: consumes the canonical event sequence and reconstructs
//! an ordered tree, remembering which keys were quoted in the source text.
//! A ghost automaton mirrors the builder step for step, so that what the
//! builder accepts and what it builds are both pinned down exactly.

use vstd::prelude::*;

verus! {

use crate::value::{JsonPrimitive, JsonValue, JsonStreamEvent, PrimModel, ValueModel, prim_model,
    value_model, arr_model, obj_model, lemma_arr_model, lemma_obj_model, clone_primitive};
use crate::error::{Result, ToonError};

/// A decoded node: like a JSON value, but each object also remembers which
/// of its keys were written quoted, which gates path expansion.
#[derive(Debug, PartialEq)]
pub enum NodeValue {
    Primitive(JsonPrimitive),
    Array(Vec<NodeValue>),
    Object(ObjectNode),
}

/// An object's entries plus the keys that were quoted in the source.
#[derive(Debug, PartialEq)]
pub struct ObjectNode {
    pub entries: Vec<(String, NodeValue)>,
    pub quoted_keys: Vec<String>,
}

/// The ghost model of a decoded node.
pub ghost enum NodeModel {
    Prim(PrimModel),
    Arr(Seq<NodeModel>),
    Obj { entries: Seq<(Seq<char>, NodeModel)>, quoted: Seq<Seq<char>> },
}

/// The model of a decoded node.
pub open spec fn node_model(n: NodeValue) -> NodeModel
    decreases n,
{
    match n {
        NodeValue::Primitive(p) => NodeModel::Prim(prim_model(p)),
        NodeValue::Array(items) => NodeModel::Arr(node_arr_model(items@)),
        NodeValue::Object(o) => NodeModel::Obj {
            entries: node_obj_model(o.entries@),
            quoted: o.quoted_keys@.map_values(|s: String| s@),
        },
    }
}

/// The models of an array node's items, in order.
pub open spec fn node_arr_model(s: Seq<NodeValue>) -> Seq<NodeModel>
    decreases s,
{
    if s.len() == 0 {
        Seq::empty()
    } else {
        seq![node_model(s[0])] + node_arr_model(s.drop_first())
    }
}

/// The models of an object node's entries, in order.
pub open spec fn node_obj_model(s: Seq<(String, NodeValue)>) -> Seq<(Seq<char>, NodeModel)>
    decreases s,
{
    if s.len() == 0 {
        Seq::empty()
    } else {
        seq![(s[0].0@, node_model(s[0].1))] + node_obj_model(s.drop_first())
    }
}

/// [`node_arr_model`] maps the sequence index for index.
pub proof fn lemma_node_arr_model(s: Seq<NodeValue>)
    ensures
        node_arr_model(s).len() == s.len(),
        forall|i: int| 0 <= i < s.len() ==> #[trigger] node_arr_model(s)[i] == node_model(s[i]),
    decreases s,
{
    if s.len() > 0 {
        lemma_node_arr_model(s.drop_first());
    }
}

/// [`node_obj_model`] maps the sequence index for index.
pub proof fn lemma_node_obj_model(s: Seq<(String, NodeValue)>)
    ensures
        node_obj_model(s).len() == s.len(),
        forall|i: int|
            0 <= i < s.len() ==> #[trigger] node_obj_model(s)[i] == (s[i].0@, node_model(s[i].1)),
    decreases s,
{
    if s.len() > 0 {
        lemma_node_obj_model(s.drop_first());
    }
}

/// The ghost model of one stream event.
pub ghost enum EventModel {
    StartObj,
    EndObj,
    StartArr(int),
    EndArr,
    Key(Seq<char>, bool),
    Prim(PrimModel),
}

/// The model of one stream event.
pub open spec fn event_model(e: JsonStreamEvent) -> EventModel {
    match e {
        JsonStreamEvent::StartObject => EventModel::StartObj,
        JsonStreamEvent::EndObject => EventModel::EndObj,
        JsonStreamEvent::StartArray { length } => EventModel::StartArr(length as int),
        JsonStreamEvent::EndArray => EventModel::EndArr,
        JsonStreamEvent::Key { key, was_quoted } => EventModel::Key(key@, was_quoted),
        JsonStreamEvent::Primitive { value } => EventModel::Prim(prim_model(value)),
    }
}

/// One open frame of the builder: an object being filled (with its pending
/// key, if a `Key` event was seen) or an array being filled.
pub ghost enum CtxModel {
    Obj { entries: Seq<(Seq<char>, NodeModel)>, pending: Option<Seq<char>>, quoted: Seq<Seq<char>> },
    Arr { items: Seq<NodeModel> },
}

/// The builder's state: its open frames and the root, once one completed.
pub ghost struct BuildStateModel {
    pub stack: Seq<CtxModel>,
    pub root: Option<NodeModel>,
}

/// The builder's starting state.
pub open spec fn init_build_state() -> BuildStateModel {
    BuildStateModel { stack: Seq::empty(), root: None }
}

/// Attach a completed node: to the root when no frame is open, to the
/// pending key of an open object (failing without one), or to the end of an
/// open array.
pub open spec fn attach_model(st: BuildStateModel, node: NodeModel) -> Option<BuildStateModel> {
    if st.stack.len() == 0 {
        Some(BuildStateModel { stack: st.stack, root: Some(node) })
    } else {
        match st.stack.last() {
            CtxModel::Obj { entries, pending, quoted } => match pending {
                Option::Some(key) => Some(
                    BuildStateModel {
                        stack: st.stack.update(
                            st.stack.len() - 1,
                            CtxModel::Obj {
                                entries: entries.push((key, node)),
                                pending: None,
                                quoted,
                            },
                        ),
                        root: st.root,
                    },
                ),
                Option::None => None,
            },
            CtxModel::Arr { items } => Some(
                BuildStateModel {
                    stack: st.stack.update(
                        st.stack.len() - 1,
                        CtxModel::Arr { items: items.push(node) },
                    ),
                    root: st.root,
                },
            ),
        }
    }
}

/// One builder step; `None` is a malformed event stream.
pub open spec fn apply_event_model(st: BuildStateModel, e: EventModel) -> Option<BuildStateModel> {
    match e {
        EventModel::StartObj => Some(
            BuildStateModel {
                stack: st.stack.push(
                    CtxModel::Obj { entries: Seq::empty(), pending: None, quoted: Seq::empty() },
                ),
                root: st.root,
            },
        ),
        EventModel::StartArr(_) => Some(
            BuildStateModel {
                stack: st.stack.push(CtxModel::Arr { items: Seq::empty() }),
                root: st.root,
            },
        ),
        EventModel::EndObj => {
            if st.stack.len() == 0 {
                None
            } else {
                match st.stack.last() {
                    CtxModel::Obj { entries, pending, quoted } => attach_model(
                        BuildStateModel { stack: st.stack.drop_last(), root: st.root },
                        NodeModel::Obj { entries, quoted },
                    ),
                    CtxModel::Arr { .. } => None,
                }
            }
        },
        EventModel::EndArr => {
            if st.stack.len() == 0 {
                None
            } else {
                match st.stack.last() {
                    CtxModel::Arr { items } => attach_model(
                        BuildStateModel { stack: st.stack.drop_last(), root: st.root },
                        NodeModel::Arr(items),
                    ),
                    CtxModel::Obj { .. } => None,
                }
            }
        },
        EventModel::Key(k, q) => {
            if st.stack.len() == 0 {
                None
            } else {
                match st.stack.last() {
                    CtxModel::Obj { entries, pending, quoted } => Some(
                        BuildStateModel {
                            stack: st.stack.update(
                                st.stack.len() - 1,
                                CtxModel::Obj {
                                    entries,
                                    pending: Some(k),
                                    quoted: if q {
                                        quoted.push(k)
                                    } else {
                                        quoted
                                    },
                                },
                            ),
                            root: st.root,
                        },
                    ),
                    CtxModel::Arr { .. } => None,
                }
            }
        },
        EventModel::Prim(p) => attach_model(st, NodeModel::Prim(p)),
    }
}

/// Run the builder over a whole event sequence.
pub open spec fn run_events(st: BuildStateModel, es: Seq<EventModel>) -> Option<BuildStateModel>
    decreases es.len(),
{
    if es.len() == 0 {
        Some(st)
    } else {
        match apply_event_model(st, es[0]) {
            Option::None => None,
            Option::Some(st2) => run_events(st2, es.drop_first()),
        }
    }
}

/// Running a sequence plus one more event is running the sequence, then
/// taking one step.
pub proof fn lemma_run_snoc(st: BuildStateModel, es: Seq<EventModel>, e: EventModel)
    ensures
        run_events(st, es.push(e)) == match run_events(st, es) {
            Option::None => None::<BuildStateModel>,
            Option::Some(st2) => apply_event_model(st2, e),
        },
    decreases es.len(),
{
    if es.len() == 0 {
        assert(es.push(e)[0] == e);
        assert(es.push(e).drop_first() =~= Seq::<EventModel>::empty());
        assert(run_events(st, es) == Some(st));
        match apply_event_model(st, e) {
            Option::None => {
                assert(run_events(st, es.push(e)) is None);
            },
            Option::Some(st2) => {
                assert(run_events(st, es.push(e)) == run_events(st2, es.push(e).drop_first()));
                assert(run_events(st2, es.push(e).drop_first()) == Some(st2));
            },
        }
    } else {
        assert(es.push(e)[0] == es[0]);
        assert(es.push(e).drop_first() =~= es.drop_first().push(e));
        match apply_event_model(st, es[0]) {
            Option::None => {},
            Option::Some(st2) => {
                lemma_run_snoc(st2, es.drop_first(), e);
            },
        }
    }
}

/// What a whole event sequence builds: exactly one root value, with every
/// frame closed; `None` on any inconsistency.
pub open spec fn build_spec(es: Seq<EventModel>) -> Option<NodeModel> {
    match run_events(init_build_state(), es) {
        Option::None => None,
        Option::Some(st) => if st.stack.len() == 0 {
            st.root
        } else {
            None
        },
    }
}

enum BuildContext {
    Object { entries: Vec<(String, NodeValue)>, current_key: Option<String>, quoted_keys: Vec<
        String,
    > },
    Array { items: Vec<NodeValue> },
}

spec fn ctx_model(c: BuildContext) -> CtxModel {
    match c {
        BuildContext::Object { entries, current_key, quoted_keys } => CtxModel::Obj {
            entries: node_obj_model(entries@),
            pending: match current_key {
                Option::Some(k) => Some(k@),
                Option::None => None,
            },
            quoted: quoted_keys@.map_values(|s: String| s@),
        },
        BuildContext::Array { items } => CtxModel::Arr { items: node_arr_model(items@) },
    }
}

spec fn state_model(stack: Seq<BuildContext>, root: Option<NodeValue>) -> BuildStateModel {
    BuildStateModel {
        stack: stack.map_values(|c: BuildContext| ctx_model(c)),
        root: match root {
            Option::Some(n) => Some(node_model(n)),
            Option::None => None,
        },
    }
}

/// Attach a completed node to the innermost open frame, or make it the root.
fn attach_node(
    stack: &mut Vec<BuildContext>,
    root: &mut Option<NodeValue>,
    node: NodeValue,
    key_error: &str,
) -> (r: Result<()>)
    ensures
        match r {
            Result::Ok(_) => attach_model(
                state_model(old(stack)@, *old(root)),
                node_model(node),
            ) == Some(state_model(final(stack)@, *final(root))),
            Result::Err(_) => attach_model(state_model(old(stack)@, *old(root)), node_model(node))
                is None,
        },
{
    let ghost st0 = state_model(stack@, *root);
    if stack.len() == 0 {
        *root = Some(node);
        proof {
            assert(st0.stack.len() == 0);
            assert(state_model(stack@, *root).stack =~= st0.stack);
        }
        return Ok(());
    }
    let parent = stack.pop().unwrap();
    let ghost popped_map = stack@.map_values(|c: BuildContext| ctx_model(c));
    proof {
        assert(st0.stack.drop_last() =~= popped_map);
        assert(st0.stack.last() == ctx_model(parent));
    }
    match parent {
        BuildContext::Object { mut entries, current_key, quoted_keys } => {
            match current_key {
                Option::Some(key) => {
                    let ghost entries_before = entries@;
                    let ghost entries0 = node_obj_model(entries@);
                    let ghost key_view = key@;
                    let ghost node_m = node_model(node);
                    entries.push((key, node));
                    proof {
                        assert(entries@ =~= entries_before.push(entries@.last()));
                        lemma_node_obj_model_push(entries_before, entries@.last());
                        assert(node_obj_model(entries@) == entries0.push((key_view, node_m)));
                    }
                    stack.push(
                        BuildContext::Object { entries, current_key: None, quoted_keys },
                    );
                    proof {
                        assert(state_model(stack@, *root).stack =~= st0.stack.update(
                            st0.stack.len() - 1,
                            CtxModel::Obj {
                                entries: entries0.push((key_view, node_m)),
                                pending: None,
                                quoted: stack@.last()->Object_quoted_keys@.map_values(
                                    |s: String| s@,
                                ),
                            },
                        ));
                    }
                    Ok(())
                },
                Option::None => Err(ToonError::event_stream(key_error)),
            }
        },
        BuildContext::Array { mut items } => {
            let ghost items_before = items@;
            let ghost items0 = node_arr_model(items@);
            let ghost node_m = node_model(node);
            items.push(node);
            proof {
                assert(items@ =~= items_before.push(items@.last()));
                lemma_node_arr_model_push(items_before, items@.last());
                assert(node_arr_model(items@) == items0.push(node_m));
            }
            stack.push(BuildContext::Array { items });
            proof {
                assert(state_model(stack@, *root).stack =~= st0.stack.update(
                    st0.stack.len() - 1,
                    CtxModel::Arr { items: items0.push(node_m) },
                ));
            }
            Ok(())
        },
    }
}

/// Appending one element extends the model by its model.
pub proof fn lemma_node_arr_model_push(s: Seq<NodeValue>, n: NodeValue)
    ensures
        node_arr_model(s.push(n)) == node_arr_model(s).push(node_model(n)),
{
    lemma_node_arr_model(s.push(n));
    lemma_node_arr_model(s);
    assert(node_arr_model(s.push(n)) =~= node_arr_model(s).push(node_model(n)));
}

/// Appending one entry extends the model by its model.
pub proof fn lemma_node_obj_model_push(s: Seq<(String, NodeValue)>, e: (String, NodeValue))
    ensures
        node_obj_model(s.push(e)) == node_obj_model(s).push((e.0@, node_model(e.1))),
{
    lemma_node_obj_model(s.push(e));
    lemma_node_obj_model(s);
    assert(node_obj_model(s.push(e)) =~= node_obj_model(s).push((e.0@, node_model(e.1))));
}

/// Build a decoded node tree from a stream of events.
///
/// Fails exactly when the event stream is malformed: an end event with no
/// matching start, a value or end event inside an object with no pending
/// key, a key outside an object, frames left open at the end, or no root
/// value at all.
#[verifier::rlimit(50)]
pub fn build_node_from_events(events: Vec<JsonStreamEvent>) -> (r: Result<NodeValue>)
    ensures
        match r {
            Result::Ok(n) => build_spec(events@.map_values(|e: JsonStreamEvent| event_model(e)))
                == Some(node_model(n)),
            Result::Err(_) => build_spec(events@.map_values(|e: JsonStreamEvent| event_model(e)))
                is None,
        },
{
    let ghost evs = events@.map_values(|e: JsonStreamEvent| event_model(e));
    let mut stack: Vec<BuildContext> = Vec::new();
    let mut root: Option<NodeValue> = None;
    let mut i: usize = 0;
    proof {
        assert(evs.take(0) =~= Seq::<EventModel>::empty());
        assert(state_model(stack@, root).stack =~= Seq::<CtxModel>::empty());
    }
    while i < events.len()
        invariant
            0 <= i <= events@.len(),
            evs == events@.map_values(|e: JsonStreamEvent| event_model(e)),
            run_events(init_build_state(), evs.take(i as int)) == Some(state_model(stack@, root)),
        decreases events.len() - i,
    {
        let ghost st0 = state_model(stack@, root);
        let ghost e_model = evs[i as int];
        proof {
            assert(evs.take(i + 1) =~= evs.take(i as int).push(e_model));
            lemma_run_snoc(init_build_state(), evs.take(i as int), e_model);
        }
        let event = clone_event(&events[i]);
        match event {
            JsonStreamEvent::StartObject => {
                stack.push(
                    BuildContext::Object {
                        entries: Vec::new(),
                        current_key: None,
                        quoted_keys: Vec::new(),
                    },
                );
                proof {
                    assert(node_obj_model(Seq::<(String, NodeValue)>::empty())
                        =~= Seq::<(Seq<char>, NodeModel)>::empty());
                    assert(Seq::<String>::empty().map_values(|s: String| s@)
                        =~= Seq::<Seq<char>>::empty());
                    assert(state_model(stack@, root).stack =~= st0.stack.push(
                        CtxModel::Obj {
                            entries: Seq::empty(),
                            pending: None,
                            quoted: Seq::empty(),
                        },
                    ));
                }
            },
            JsonStreamEvent::StartArray { length: _ } => {
                stack.push(BuildContext::Array { items: Vec::new() });
                proof {
                    assert(node_arr_model(Seq::<NodeValue>::empty()) =~= Seq::<NodeModel>::empty());
                    assert(state_model(stack@, root).stack =~= st0.stack.push(
                        CtxModel::Arr { items: Seq::empty() },
                    ));
                }
            },
            JsonStreamEvent::EndObject => {
                match stack.pop() {
                    Option::None => {
                        proof {
                            lemma_run_none_rest(evs, i as int);
                        }
                        return Err(ToonError::event_stream("Unexpected endObject event"));
                    },
                    Option::Some(ctx) => {
                        proof {
                            assert(st0.stack.last() == ctx_model(ctx));
                            assert(stack@.map_values(|c: BuildContext| ctx_model(c))
                                =~= st0.stack.drop_last());
                        }
                        match ctx {
                            BuildContext::Object { entries, current_key: _, quoted_keys } => {
                                let node = NodeValue::Object(ObjectNode { entries, quoted_keys });
                                match attach_node(
                                    &mut stack,
                                    &mut root,
                                    node,
                                    "Object endObject event without preceding key",
                                ) {
                                    Result::Ok(_) => {},
                                    Result::Err(e) => {
                                        proof {
                                            lemma_run_none_rest(evs, i as int);
                                        }
                                        return Err(e);
                                    },
                                }
                            },
                            BuildContext::Array { .. } => {
                                proof {
                                    lemma_run_none_rest(evs, i as int);
                                }
                                return Err(ToonError::event_stream("Mismatched endObject event"));
                            },
                        }
                    },
                }
            },
            JsonStreamEvent::EndArray => {
                match stack.pop() {
                    Option::None => {
                        proof {
                            lemma_run_none_rest(evs, i as int);
                        }
                        return Err(ToonError::event_stream("Unexpected endArray event"));
                    },
                    Option::Some(ctx) => {
                        proof {
                            assert(st0.stack.last() == ctx_model(ctx));
                            assert(stack@.map_values(|c: BuildContext| ctx_model(c))
                                =~= st0.stack.drop_last());
                        }
                        match ctx {
                            BuildContext::Array { items } => {
                                let node = NodeValue::Array(items);
                                match attach_node(
                                    &mut stack,
                                    &mut root,
                                    node,
                                    "Array endArray event without preceding key",
                                ) {
                                    Result::Ok(_) => {},
                                    Result::Err(e) => {
                                        proof {
                                            lemma_run_none_rest(evs, i as int);
                                        }
                                        return Err(e);
                                    },
                                }
                            },
                            BuildContext::Object { .. } => {
                                proof {
                                    lemma_run_none_rest(evs, i as int);
                                }
                                return Err(ToonError::event_stream("Mismatched endArray event"));
                            },
                        }
                    },
                }
            },
            JsonStreamEvent::Key { key, was_quoted } => {
                match stack.pop() {
                    Option::Some(BuildContext::Object { entries, current_key: _, mut quoted_keys })
                        => {
                        proof {
                            assert(stack@.map_values(|c: BuildContext| ctx_model(c))
                                =~= st0.stack.drop_last());
                        }
                        let pending = key.clone();
                        let ghost quoted0 = quoted_keys@.map_values(|s: String| s@);
                        if was_quoted {
                            quoted_keys.push(key);
                            proof {
                                assert(quoted_keys@.map_values(|s: String| s@) =~= quoted0.push(
                                    key@,
                                ));
                            }
                            stack.push(
                                BuildContext::Object {
                                    entries,
                                    current_key: Some(pending),
                                    quoted_keys,
                                },
                            );
                        } else {
                            stack.push(
                                BuildContext::Object {
                                    entries,
                                    current_key: Some(pending),
                                    quoted_keys,
                                },
                            );
                        }
                        proof {
                            assert(state_model(stack@, root).stack =~= st0.stack.update(
                                st0.stack.len() - 1,
                                state_model(stack@, root).stack.last(),
                            ));
                        }
                    },
                    Option::Some(other) => {
                        proof {
                            lemma_run_none_rest(evs, i as int);
                        }
                        return Err(ToonError::event_stream("Key event outside of object context"));
                    },
                    Option::None => {
                        proof {
                            lemma_run_none_rest(evs, i as int);
                        }
                        return Err(ToonError::event_stream("Key event outside of object context"));
                    },
                }
            },
            JsonStreamEvent::Primitive { value } => {
                match attach_node(
                    &mut stack,
                    &mut root,
                    NodeValue::Primitive(value),
                    "Primitive event without preceding key in object",
                ) {
                    Result::Ok(_) => {},
                    Result::Err(e) => {
                        proof {
                            lemma_run_none_rest(evs, i as int);
                        }
                        return Err(e);
                    },
                }
            },
        }
        i += 1;
    }
    proof {
        assert(evs.take(evs.len() as int) =~= evs);
    }
    if stack.len() > 0 {
        return Err(ToonError::event_stream("Incomplete event stream: stack not empty at end"));
    }
    match root {
        Option::Some(n) => Ok(n),
        Option::None => Err(ToonError::event_stream("No root value built from events")),
    }
}

/// Once a step fails at position `i`, the whole sequence fails.
proof fn lemma_run_none_rest(evs: Seq<EventModel>, i: int)
    requires
        0 <= i < evs.len(),
        run_events(init_build_state(), evs.take(i + 1)) is None,
    ensures
        run_events(init_build_state(), evs) is None,
{
    assert(evs =~= evs.take(i + 1) + evs.skip(i + 1));
    lemma_run_concat(init_build_state(), evs.take(i + 1), evs.skip(i + 1));
}

/// Running a concatenation is running the first part, then the second.
pub proof fn lemma_run_concat(st: BuildStateModel, a: Seq<EventModel>, b: Seq<EventModel>)
    ensures
        run_events(st, a + b) == match run_events(st, a) {
            Option::None => None::<BuildStateModel>,
            Option::Some(st2) => run_events(st2, b),
        },
    decreases a.len(),
{
    if a.len() == 0 {
        assert(a + b =~= b);
    } else {
        assert((a + b)[0] == a[0]);
        assert((a + b).drop_first() =~= a.drop_first() + b);
        match apply_event_model(st, a[0]) {
            Option::None => {},
            Option::Some(st2) => {
                lemma_run_concat(st2, a.drop_first(), b);
            },
        }
    }
}

/// A copy of an event, equal to the original.
pub fn clone_event(e: &JsonStreamEvent) -> (r: JsonStreamEvent)
    ensures
        r == *e,
{
    match e {
        JsonStreamEvent::StartObject => JsonStreamEvent::StartObject,
        JsonStreamEvent::EndObject => JsonStreamEvent::EndObject,
        JsonStreamEvent::StartArray { length } => JsonStreamEvent::StartArray { length: *length },
        JsonStreamEvent::EndArray => JsonStreamEvent::EndArray,
        JsonStreamEvent::Key { key, was_quoted } => JsonStreamEvent::Key {
            key: key.clone(),
            was_quoted: *was_quoted,
        },
        JsonStreamEvent::Primitive { value } => JsonStreamEvent::Primitive {
            value: clone_primitive(value),
        },
    }
}

/// What a decoded node reads as once the quoted-key marks are dropped.
pub open spec fn node_strip(m: NodeModel) -> ValueModel
    decreases m,
{
    match m {
        NodeModel::Prim(p) => ValueModel::Prim(p),
        NodeModel::Arr(items) => ValueModel::Arr(node_strip_arr(items)),
        NodeModel::Obj { entries, quoted } => ValueModel::Obj(node_strip_obj(entries)),
    }
}

/// Strip an array's items, in order.
pub open spec fn node_strip_arr(s: Seq<NodeModel>) -> Seq<ValueModel>
    decreases s,
{
    if s.len() == 0 {
        Seq::empty()
    } else {
        seq![node_strip(s[0])] + node_strip_arr(s.drop_first())
    }
}

/// Strip an object's entries, in order.
pub open spec fn node_strip_obj(s: Seq<(Seq<char>, NodeModel)>) -> Seq<(Seq<char>, ValueModel)>
    decreases s,
{
    if s.len() == 0 {
        Seq::empty()
    } else {
        seq![(s[0].0, node_strip(s[0].1))] + node_strip_obj(s.drop_first())
    }
}

/// [`node_strip_arr`] maps the sequence index for index.
pub proof fn lemma_node_strip_arr(s: Seq<NodeModel>)
    ensures
        node_strip_arr(s).len() == s.len(),
        forall|i: int| 0 <= i < s.len() ==> #[trigger] node_strip_arr(s)[i] == node_strip(s[i]),
    decreases s,
{
    if s.len() > 0 {
        lemma_node_strip_arr(s.drop_first());
    }
}

/// [`node_strip_obj`] maps the sequence index for index.
pub proof fn lemma_node_strip_obj(s: Seq<(Seq<char>, NodeModel)>)
    ensures
        node_strip_obj(s).len() == s.len(),
        forall|i: int|
            0 <= i < s.len() ==> #[trigger] node_strip_obj(s)[i] == (s[i].0, node_strip(s[i].1)),
    decreases s,
{
    if s.len() > 0 {
        lemma_node_strip_obj(s.drop_first());
    }
}

/// Convert a decoded node tree to a plain JSON value, dropping the
/// quoted-key marks.
#[verifier::loop_isolation(false)]
pub fn node_to_json(value: NodeValue) -> (r: JsonValue)
    ensures
        value_model(r) == node_strip(node_model(value)),
{
    node_to_json_ref(&value)
}

#[verifier::loop_isolation(false)]
fn node_to_json_ref(v: &NodeValue) -> (r: JsonValue)
    ensures
        value_model(r) == node_strip(node_model(*v)),
    decreases *v,
{
    match v {
        NodeValue::Primitive(p) => JsonValue::Primitive(clone_primitive(p)),
        NodeValue::Array(items) => {
            let mut out: Vec<JsonValue> = Vec::new();
            let mut i: usize = 0;
            while i < items.len()
                invariant
                    0 <= i <= items.len(),
                    out@.len() == i,
                    forall|k: int|
                        0 <= k < i ==> value_model(#[trigger] out@[k]) == node_strip(
                            node_model(items@[k]),
                        ),
                decreases items.len() - i,
            {
                proof {
                    assert(decreases_to!(*v => *items));
                    assert(decreases_to!(items@ => items@[i as int]));
                }
                out.push(node_to_json_ref(&items[i]));
                i += 1;
            }
            proof {
                lemma_arr_model(out@);
                lemma_node_arr_model(items@);
                lemma_node_strip_arr(node_arr_model(items@));
                assert(arr_model(out@) =~= node_strip_arr(node_arr_model(items@)));
            }
            JsonValue::Array(out)
        },
        NodeValue::Object(o) => {
            let mut out: Vec<(String, JsonValue)> = Vec::new();
            let mut i: usize = 0;
            while i < o.entries.len()
                invariant
                    0 <= i <= o.entries.len(),
                    out@.len() == i,
                    forall|k: int|
                        0 <= k < i ==> (#[trigger] out@[k]).0@ == o.entries@[k].0@ && value_model(
                            out@[k].1,
                        ) == node_strip(node_model(o.entries@[k].1)),
                decreases o.entries.len() - i,
            {
                proof {
                    assert(decreases_to!(*v => v->Object_0));
                    assert(decreases_to!(o.entries@ => o.entries@[i as int]));
                    assert(decreases_to!(o.entries@[i as int] => o.entries@[i as int].1));
                }
                let key = o.entries[i].0.clone();
                let val = node_to_json_ref(&o.entries[i].1);
                out.push((key, val));
                i += 1;
            }
            proof {
                lemma_obj_model(out@);
                lemma_node_obj_model(o.entries@);
                lemma_node_strip_obj(node_obj_model(o.entries@));
                assert(obj_model(out@) =~= node_strip_obj(node_obj_model(o.entries@)));
            }
            JsonValue::Object(out)
        },
    }
}


/// One shape frame of the well-formedness check: an object frame with or
/// without a pending key, or an array frame. Acceptance by the builder
/// depends only on these shapes, never on the data in the frames.
enum WfFrame {
    ObjPending,
    ObjIdle,
    Arr,
}

/// Does a shape frame describe a builder frame?
spec fn frame_matches(w: WfFrame, c: CtxModel) -> bool {
    match w {
        WfFrame::ObjPending => c matches CtxModel::Obj { pending: Some(_), .. },
        WfFrame::ObjIdle => c matches CtxModel::Obj { pending: None, .. },
        WfFrame::Arr => c matches CtxModel::Arr { .. },
    }
}

/// Is the event sequence well-formed: would the builder accept it? This is
/// the invariant of the canonical representation — every start matched by
/// its end, a key before every value inside an object, exactly one root.
pub fn events_well_formed(events: &Vec<JsonStreamEvent>) -> (b: bool)
    ensures
        b == (build_spec(events@.map_values(|e: JsonStreamEvent| event_model(e))) is Some),
{
    let ghost evs = events@.map_values(|e: JsonStreamEvent| event_model(e));
    let mut stack: Vec<WfFrame> = Vec::new();
    let mut has_root: bool = false;
    let ghost mut st = init_build_state();
    let mut i: usize = 0;
    proof {
        assert(evs.take(0) =~= Seq::<EventModel>::empty());
    }
    while i < events.len()
        invariant
            0 <= i <= events@.len(),
            evs == events@.map_values(|e: JsonStreamEvent| event_model(e)),
            run_events(init_build_state(), evs.take(i as int)) == Some(st),
            stack@.len() == st.stack.len(),
            forall|k: int|
                0 <= k < stack@.len() ==> frame_matches(#[trigger] stack@[k], st.stack[k]),
            has_root == (st.root is Some),
        decreases events.len() - i,
    {
        let ghost e_model = evs[i as int];
        proof {
            assert(evs.take(i + 1) =~= evs.take(i as int).push(e_model));
            lemma_run_snoc(init_build_state(), evs.take(i as int), e_model);
        }
        match &events[i] {
            JsonStreamEvent::StartObject => {
                stack.push(WfFrame::ObjIdle);
                proof {
                    st = apply_event_model(st, e_model).unwrap();
                }
            },
            JsonStreamEvent::StartArray { length: _ } => {
                stack.push(WfFrame::Arr);
                proof {
                    st = apply_event_model(st, e_model).unwrap();
                }
            },
            JsonStreamEvent::Key { key: _, was_quoted: _ } => {
                let top_is_obj = if stack.len() == 0 {
                    false
                } else {
                    match stack[stack.len() - 1] {
                        WfFrame::ObjPending => true,
                        WfFrame::ObjIdle => true,
                        WfFrame::Arr => false,
                    }
                };
                if !top_is_obj {
                    proof {
                        assert(apply_event_model(st, e_model) is None);
                        lemma_build_none_rest(evs, i as int);
                    }
                    return false;
                }
                stack.pop();
                stack.push(WfFrame::ObjPending);
                proof {
                    st = apply_event_model(st, e_model).unwrap();
                    assert(stack@ =~= stack@.take(stack@.len() - 1).push(WfFrame::ObjPending));
                }
            },
            JsonStreamEvent::Primitive { value: _ } => {
                if stack.len() == 0 {
                    has_root = true;
                    proof {
                        st = apply_event_model(st, e_model).unwrap();
                    }
                } else {
                    let ok = match stack[stack.len() - 1] {
                        WfFrame::ObjPending => true,
                        WfFrame::ObjIdle => false,
                        WfFrame::Arr => true,
                    };
                    if !ok {
                        proof {
                            assert(apply_event_model(st, e_model) is None);
                            lemma_build_none_rest(evs, i as int);
                        }
                        return false;
                    }
                    let was_pending = match stack[stack.len() - 1] {
                        WfFrame::ObjPending => true,
                        _ => false,
                    };
                    if was_pending {
                        stack.pop();
                        stack.push(WfFrame::ObjIdle);
                    }
                    proof {
                        st = apply_event_model(st, e_model).unwrap();
                    }
                }
            },
            JsonStreamEvent::EndObject => {
                let top_is_obj = if stack.len() == 0 {
                    false
                } else {
                    match stack[stack.len() - 1] {
                        WfFrame::Arr => false,
                        _ => true,
                    }
                };
                if !top_is_obj {
                    proof {
                        assert(apply_event_model(st, e_model) is None);
                        lemma_build_none_rest(evs, i as int);
                    }
                    return false;
                }
                stack.pop();
                if stack.len() == 0 {
                    has_root = true;
                    proof {
                        st = apply_event_model(st, e_model).unwrap();
                    }
                } else {
                    let parent_ok = match stack[stack.len() - 1] {
                        WfFrame::ObjPending => true,
                        WfFrame::ObjIdle => false,
                        WfFrame::Arr => true,
                    };
                    if !parent_ok {
                        proof {
                            assert(apply_event_model(st, e_model) is None);
                            lemma_build_none_rest(evs, i as int);
                        }
                        return false;
                    }
                    let was_pending = match stack[stack.len() - 1] {
                        WfFrame::ObjPending => true,
                        _ => false,
                    };
                    if was_pending {
                        stack.pop();
                        stack.push(WfFrame::ObjIdle);
                    }
                    proof {
                        st = apply_event_model(st, e_model).unwrap();
                    }
                }
            },
            JsonStreamEvent::EndArray => {
                let top_is_arr = if stack.len() == 0 {
                    false
                } else {
                    match stack[stack.len() - 1] {
                        WfFrame::Arr => true,
                        _ => false,
                    }
                };
                if !top_is_arr {
                    proof {
                        assert(apply_event_model(st, e_model) is None);
                        lemma_build_none_rest(evs, i as int);
                    }
                    return false;
                }
                stack.pop();
                if stack.len() == 0 {
                    has_root = true;
                    proof {
                        st = apply_event_model(st, e_model).unwrap();
                    }
                } else {
                    let parent_ok = match stack[stack.len() - 1] {
                        WfFrame::ObjPending => true,
                        WfFrame::ObjIdle => false,
                        WfFrame::Arr => true,
                    };
                    if !parent_ok {
                        proof {
                            assert(apply_event_model(st, e_model) is None);
                            lemma_build_none_rest(evs, i as int);
                        }
                        return false;
                    }
                    let was_pending = match stack[stack.len() - 1] {
                        WfFrame::ObjPending => true,
                        _ => false,
                    };
                    if was_pending {
                        stack.pop();
                        stack.push(WfFrame::ObjIdle);
                    }
                    proof {
                        st = apply_event_model(st, e_model).unwrap();
                    }
                }
            },
        }
        i += 1;
    }
    proof {
        assert(evs.take(evs.len() as int) =~= evs);
    }
    stack.len() == 0 && has_root
}

/// Once a step fails at position `i`, the whole sequence fails to build.
proof fn lemma_build_none_rest(evs: Seq<EventModel>, i: int)
    requires
        0 <= i < evs.len(),
        run_events(init_build_state(), evs.take(i + 1)) is None,
    ensures
        build_spec(evs) is None,
{
    assert(evs =~= evs.take(i + 1) + evs.skip(i + 1));
    lemma_run_concat(init_build_state(), evs.take(i + 1), evs.skip(i + 1));
}

/// The event stream `StartObject`, `EndObject` builds exactly the empty
/// object node.
pub proof fn lemma_two_event_empty_object(evs: Seq<EventModel>)
    requires
        evs.len() == 2,
        evs[0] == EventModel::StartObj,
        evs[1] == EventModel::EndObj,
    ensures
        build_spec(evs) == Some(NodeModel::Obj { entries: Seq::empty(), quoted: Seq::empty() }),
{
    let st0 = init_build_state();
    let frame = CtxModel::Obj { entries: Seq::empty(), pending: None, quoted: Seq::empty() };
    let st1 = BuildStateModel { stack: seq![frame], root: None };
    assert(apply_event_model(st0, evs[0]) == Some(st1)) by {
        assert(st0.stack.push(frame) =~= seq![frame]);
    }
    assert(run_events(st0, evs) == run_events(st1, evs.drop_first()));
    let st2 = BuildStateModel {
        stack: Seq::empty(),
        root: Some(NodeModel::Obj { entries: Seq::empty(), quoted: Seq::empty() }),
    };
    assert(evs.drop_first()[0] == evs[1]);
    assert(apply_event_model(st1, evs[1]) == Some(st2)) by {
        assert(st1.stack.last() == frame);
        assert(st1.stack.drop_last() =~= Seq::<CtxModel>::empty());
    }
    assert(run_events(st1, evs.drop_first()) == run_events(
        st2,
        evs.drop_first().drop_first(),
    ));
    assert(evs.drop_first().drop_first().len() == 0);
    assert(run_events(st2, evs.drop_first().drop_first()) == Some(st2));
}

} // verus!
