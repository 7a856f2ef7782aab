//! The encode engine: classifies every array and object shape and emits
//! TOON lines in the most compact form the grammar has for it — inline
//! primitive rows, tabular blocks, list items, or nested key-value blocks.

use vstd::prelude::*;

verus! {

use crate::value::{JsonValue, JsonObject, JsonArray, JsonPrimitive, ValueModel, PrimModel,
    value_model, prim_model, arr_model, obj_model, lemma_arr_model, lemma_obj_model,
    clone_primitive, clone_value};
use crate::options::ResolvedEncodeOptions;
use crate::primitives::{encode_primitive, encode_and_join_primitives, encode_key, format_header,
    encode_prim_spec, encode_key_spec, join_prims_spec, header_line_spec};
use crate::folding::{try_fold_key_chain, try_fold_model, chain_collect};
use crate::text::{chars_of, string_from_chars, contains_char};

/// `n` spaces.
pub open spec fn spaces(n: int) -> Seq<char>
    decreases n,
{
    if n <= 0 {
        Seq::empty()
    } else {
        spaces(n - 1).push(' ')
    }
}

/// `depth * indent`, saturated at the machine limit.
pub open spec fn sat_mul(depth: int, indent: int) -> int {
    if depth * indent > usize::MAX {
        usize::MAX as int
    } else {
        depth * indent
    }
}

/// A content line at `depth`: the indent's worth of spaces, then the text.
pub open spec fn indented_spec(depth: int, indent: int, content: Seq<char>) -> Seq<char> {
    spaces(sat_mul(depth, indent)) + content
}

/// Write `content` at `depth`.
pub fn indented_line(depth: usize, content: &str, indent_size: usize) -> (r: String)
    ensures
        r@ == indented_spec(depth as int, indent_size as int, content@),
{
    let total: usize;
    if indent_size == 0 {
        total = 0;
        proof {
            assert(depth as int * indent_size as int == 0) by (nonlinear_arith)
                requires
                    indent_size == 0,
            ;
        }
    } else {
        let q = usize::MAX / indent_size;
        proof {
            vstd::arithmetic::div_mod::lemma_fundamental_div_mod(
                usize::MAX as int,
                indent_size as int,
            );
            vstd::arithmetic::div_mod::lemma_mod_bound(usize::MAX as int, indent_size as int);
            let r = usize::MAX as int % indent_size as int;
            assert(q * indent_size <= usize::MAX && q * indent_size + indent_size
                > usize::MAX) by (nonlinear_arith)
                requires
                    usize::MAX as int == indent_size as int * (q as int) + r,
                    0 <= r < indent_size as int,
            ;
        }
        if depth <= q {
            proof {
                assert(depth * indent_size <= q * indent_size) by (nonlinear_arith)
                    requires
                        indent_size > 0,
                        depth <= q,
                ;
            }
            total = depth * indent_size;
        } else {
            proof {
                assert(depth * indent_size >= (q + 1) * indent_size) by (nonlinear_arith)
                    requires
                        indent_size > 0,
                        depth >= q + 1,
                ;
                assert((q + 1) * indent_size == q * indent_size + indent_size) by (nonlinear_arith);
            }
            total = usize::MAX;
        }
    }
    proof {
        assert(total == sat_mul(depth as int, indent_size as int));
    }
    let mut out: Vec<char> = Vec::new();
    let mut i: usize = 0;
    while i < total
        invariant
            0 <= i <= total,
            out@ == spaces(i as int),
        decreases total - i,
    {
        out.push(' ');
        i += 1;
    }
    let content_chars = chars_of(content);
    let mut j: usize = 0;
    while j < content_chars.len()
        invariant
            0 <= j <= content_chars@.len(),
            content_chars@ == content@,
            out@ == spaces(total as int) + content_chars@.take(j as int),
        decreases content_chars.len() - j,
    {
        out.push(content_chars[j]);
        j += 1;
        proof {
            assert(out@ =~= spaces(total as int) + content_chars@.take(j as int));
        }
    }
    proof {
        assert(content_chars@.take(content_chars@.len() as int) =~= content_chars@);
    }
    string_from_chars(out.as_slice())
}

/// A list-item line at `depth`: indent, the `- ` marker, then the text.
pub open spec fn list_item_spec(depth: int, indent: int, content: Seq<char>) -> Seq<char> {
    indented_spec(depth, indent, seq!['-', ' '] + content)
}

/// Write `- content` at `depth`.
pub fn indented_list_item(depth: usize, content: &str, indent_size: usize) -> (r: String)
    ensures
        r@ == list_item_spec(depth as int, indent_size as int, content@),
{
    let mut marked = String::from_str("- ");
    marked.append(content);
    proof {
        reveal_strlit("- ");
        assert(marked@ =~= seq!['-', ' '] + content@);
    }
    indented_line(depth, marked.as_str(), indent_size)
}

/// The primitives among the items, in order.
pub open spec fn prims_of(items: Seq<ValueModel>) -> Seq<PrimModel>
    decreases items.len(),
{
    if items.len() == 0 {
        Seq::empty()
    } else {
        let rest = prims_of(items.drop_first());
        match items[0] {
            ValueModel::Prim(p) => seq![p] + rest,
            _ => rest,
        }
    }
}

/// The inline form of a primitive array: its header, then the joined row
/// when there is one.
pub open spec fn inline_array_spec(
    items: Seq<ValueModel>,
    delimiter: char,
    key: Option<Seq<char>>,
) -> Seq<char> {
    let header = header_line_spec(items.len() as int, key, None, delimiter);
    if prims_of(items).len() == 0 {
        header
    } else {
        header + seq![' '] + join_prims_spec(prims_of(items), delimiter)
    }
}

/// Write a primitive array inline: `key?[N<delim>]: v1<delim>v2...`.
pub fn encode_inline_array_line(values: &JsonArray, delimiter: char, key: Option<&str>) -> (r:
    String)
    ensures
        r@ == inline_array_spec(
            arr_model(values@),
            delimiter,
            match key {
                Option::Some(k) => Some(k@),
                Option::None => None,
            },
        ),
{
    let ghost items = arr_model(values@);
    proof {
        lemma_arr_model(values@);
    }
    let mut primitives: Vec<JsonPrimitive> = Vec::new();
    let mut i: usize = 0;
    proof {
        assert(items.take(0) =~= Seq::<ValueModel>::empty());
        assert(primitives@.map_values(|p: JsonPrimitive| crate::value::prim_model(p))
            =~= prims_of(items.take(0)));
    }
    while i < values.len()
        invariant
            0 <= i <= values@.len(),
            items == arr_model(values@),
            items.len() == values@.len(),
            forall|k: int| 0 <= k < values@.len() ==> items[k] == value_model(#[trigger] values@[k]),
            primitives@.map_values(|p: JsonPrimitive| crate::value::prim_model(p)) == prims_of(
                items.take(i as int),
            ),
        decreases values.len() - i,
    {
        let ghost before = primitives@.map_values(|p: JsonPrimitive| crate::value::prim_model(p));
        match &values[i] {
            JsonValue::Primitive(p) => {
                primitives.push(clone_primitive(p));
                proof {
                    assert(primitives@.map_values(|p: JsonPrimitive| crate::value::prim_model(p))
                        =~= before.push(crate::value::prim_model(primitives@.last())));
                }
            },
            _ => {},
        }
        i += 1;
        proof {
            lemma_prims_of_snoc(items.take(i - 1), items[i - 1]);
            assert(items.take(i as int) =~= items.take(i - 1).push(items[i - 1]));
        }
    }
    proof {
        assert(items.take(items.len() as int) =~= items);
    }
    let header = format_header(values.len(), key, None, delimiter);
    if primitives.len() == 0 {
        return header;
    }
    let joined = encode_and_join_primitives(&primitives, delimiter);
    let mut out = header;
    out.append(" ");
    out.append(joined.as_str());
    proof {
        reveal_strlit(" ");
        assert(out@ =~= header_line_spec(
            items.len() as int,
            match key {
                Option::Some(k) => Some(k@),
                Option::None => None,
            },
            None,
            delimiter,
        ) + seq![' '] + join_prims_spec(prims_of(items), delimiter));
    }
    out
}

proof fn lemma_prims_of_snoc(items: Seq<ValueModel>, x: ValueModel)
    ensures
        prims_of(items.push(x)) == match x {
            ValueModel::Prim(p) => prims_of(items).push(p),
            _ => prims_of(items),
        },
    decreases items.len(),
{
    if items.len() == 0 {
        assert(items.push(x)[0] == x);
        assert(items.push(x).drop_first() =~= items);
        match x {
            ValueModel::Prim(p) => {
                assert(prims_of(items) =~= Seq::<PrimModel>::empty());
                assert(seq![p] + prims_of(items) =~= prims_of(items).push(p));
            },
            _ => {},
        }
    } else {
        assert(items.push(x)[0] == items[0]);
        assert(items.push(x).drop_first() =~= items.drop_first().push(x));
        lemma_prims_of_snoc(items.drop_first(), x);
        match items[0] {
            ValueModel::Prim(p0) => {
                match x {
                    ValueModel::Prim(p) => {
                        assert(seq![p0] + prims_of(items.drop_first()).push(p) =~= (seq![p0]
                            + prims_of(items.drop_first())).push(p));
                    },
                    _ => {},
                }
            },
            _ => {},
        }
    }
}

/// The first entry's value under `key`, if the object has it.
pub open spec fn obj_get_model(entries: Seq<(Seq<char>, ValueModel)>, key: Seq<char>) -> Option<
    ValueModel,
>
    decreases entries.len(),
{
    if entries.len() == 0 {
        None
    } else if entries[0].0 == key {
        Some(entries[0].1)
    } else {
        obj_get_model(entries.drop_first(), key)
    }
}

/// Is one row tabular over `header`: an object of exactly these fields,
/// all primitive?
pub open spec fn tabular_row_ok(row: ValueModel, header: Seq<Seq<char>>) -> bool {
    &&& row matches ValueModel::Obj { .. }
    &&& row->Obj_0.len() == header.len()
    &&& forall|j: int|
        0 <= j < header.len() ==> ((#[trigger] obj_get_model(row->Obj_0, header[j])) matches Some(
            v,
        ) && v matches ValueModel::Prim(_))
}

/// Do the rows form a tabular array over `header`: every row an object of
/// exactly these fields, all primitive?
pub open spec fn is_tabular_model(rows: Seq<ValueModel>, header: Seq<Seq<char>>) -> bool {
    forall|i: int| 0 <= i < rows.len() ==> tabular_row_ok(#[trigger] rows[i], header)
}

/// The keys of an object's entries, in order.
pub open spec fn keys_of(entries: Seq<(Seq<char>, ValueModel)>) -> Seq<Seq<char>> {
    Seq::new(entries.len(), |i: int| entries[i].0)
}

/// One step deeper, held at the machine limit.
pub open spec fn inc_depth(d: int) -> int {
    if d < usize::MAX {
        d + 1
    } else {
        d
    }
}

/// The primitives a tabular row supplies for the header's fields, in field
/// order: a missing or non-primitive spot reads as null.
pub open spec fn row_fill(entries: Seq<(Seq<char>, ValueModel)>, header: Seq<Seq<char>>) -> Seq<
    PrimModel,
> {
    Seq::new(
        header.len(),
        |j: int|
            match obj_get_model(entries, header[j]) {
                Option::Some(v) => match v {
                    ValueModel::Prim(p) => p,
                    _ => PrimModel::Null,
                },
                Option::None => PrimModel::Null,
            },
    )
}

/// The text of a tabular block's rows: one delimiter-joined line per object
/// row, non-objects skipped.
pub open spec fn tab_row_lines(
    rows: Seq<ValueModel>,
    header: Seq<Seq<char>>,
    depth: int,
    indent: int,
    delimiter: char,
) -> Seq<Seq<char>>
    decreases rows.len(),
{
    if rows.len() == 0 {
        Seq::empty()
    } else {
        let rest = tab_row_lines(rows.drop_first(), header, depth, indent, delimiter);
        match rows[0] {
            ValueModel::Obj(es) => seq![
                indented_spec(depth, indent, join_prims_spec(row_fill(es, header), delimiter)),
            ] + rest,
            _ => rest,
        }
    }
}

/// Is the model an array of primitives only?
pub open spec fn value_is_prim_array(m: ValueModel) -> bool {
    &&& m matches ValueModel::Arr(_)
    &&& forall|j: int|
        0 <= j < m->Arr_0.len() ==> (#[trigger] m->Arr_0[j]) matches ValueModel::Prim(_)
}

/// Does every entry of the object model hold a primitive value?
pub open spec fn all_prim_entries(entries: Seq<(Seq<char>, ValueModel)>) -> bool {
    forall|k: int| 0 <= k < entries.len() ==> (#[trigger] entries[k].1) matches ValueModel::Prim(_)
}

/// The one line a flat (all-primitive) object entry encodes to.
pub open spec fn flat_entry_line(
    key: Seq<char>,
    p: PrimModel,
    depth: int,
    indent: int,
    delimiter: char,
) -> Seq<char> {
    indented_spec(depth, indent, encode_key_spec(key) + seq![':', ' '] + encode_prim_spec(p, delimiter))
}

/// The text of an array-of-primitive-rows block: one `- ` inline line per
/// array element, non-arrays skipped.
pub open spec fn prim_rows_lines(
    items: Seq<ValueModel>,
    depth: int,
    indent: int,
    delimiter: char,
) -> Seq<Seq<char>>
    decreases items.len(),
{
    if items.len() == 0 {
        Seq::empty()
    } else {
        let rest = prim_rows_lines(items.drop_first(), depth, indent, delimiter);
        match items[0] {
            ValueModel::Arr(sub) => seq![
                list_item_spec(depth, indent, inline_array_spec(sub, delimiter, None)),
            ] + rest,
            _ => rest,
        }
    }
}

/// The height of a value model, used as the encoder's recursion measure.
pub open spec fn vm_height(m: ValueModel) -> nat
    decreases m,
{
    match m {
        ValueModel::Prim(_) => 0,
        ValueModel::Arr(items) => 1 + vm_items_height(items),
        ValueModel::Obj(entries) => 1 + vm_entries_height(entries),
    }
}

/// The greatest height among the items.
pub open spec fn vm_items_height(items: Seq<ValueModel>) -> nat
    decreases items,
{
    if items.len() == 0 {
        0
    } else {
        let h0 = vm_height(items[0]);
        let hr = vm_items_height(items.drop_first());
        if h0 > hr {
            h0
        } else {
            hr
        }
    }
}

/// The greatest height among the entry values.
pub open spec fn vm_entries_height(entries: Seq<(Seq<char>, ValueModel)>) -> nat
    decreases entries,
{
    if entries.len() == 0 {
        0
    } else {
        let h0 = vm_height(entries[0].1);
        let hr = vm_entries_height(entries.drop_first());
        if h0 > hr {
            h0
        } else {
            hr
        }
    }
}

/// Every item is at most as tall as the tallest.
proof fn lemma_items_height(items: Seq<ValueModel>)
    ensures
        forall|i: int|
            0 <= i < items.len() ==> vm_height(#[trigger] items[i]) <= vm_items_height(items),
    decreases items.len(),
{
    if items.len() > 0 {
        lemma_items_height(items.drop_first());
        assert forall|i: int| 0 <= i < items.len() implies vm_height(#[trigger] items[i])
            <= vm_items_height(items) by {
            if i > 0 {
                assert(items[i] == items.drop_first()[i - 1]);
                assert(vm_height(items.drop_first()[i - 1]) <= vm_items_height(
                    items.drop_first(),
                ));
            }
        }
    }
}

/// Every entry value is at most as tall as the tallest.
proof fn lemma_entries_height(entries: Seq<(Seq<char>, ValueModel)>)
    ensures
        forall|i: int|
            0 <= i < entries.len() ==> vm_height((#[trigger] entries[i]).1) <= vm_entries_height(
                entries,
            ),
    decreases entries.len(),
{
    if entries.len() > 0 {
        lemma_entries_height(entries.drop_first());
        assert forall|i: int| 0 <= i < entries.len() implies vm_height((#[trigger] entries[i]).1)
            <= vm_entries_height(entries) by {
            if i > 0 {
                assert(entries[i] == entries.drop_first()[i - 1]);
                assert(vm_height(entries.drop_first()[i - 1].1) <= vm_entries_height(
                    entries.drop_first(),
                ));
            }
        }
    }
}

/// A suffix of the entries is at most as tall as the whole.
proof fn lemma_entries_height_skip(entries: Seq<(Seq<char>, ValueModel)>, k: int)
    requires
        0 <= k <= entries.len(),
    ensures
        vm_entries_height(entries.skip(k)) <= vm_entries_height(entries),
    decreases k,
{
    if k > 0 {
        assert(entries.skip(k) =~= entries.drop_first().skip(k - 1));
        lemma_entries_height_skip(entries.drop_first(), k - 1);
    } else {
        assert(entries.skip(0) =~= entries);
    }
}

/// A chain of two or more segments ends strictly below its start.
proof fn lemma_chain_height(key: Seq<char>, v: ValueModel, max: int)
    ensures
        ({
            let c = chain_collect(key, v, max);
            &&& c.0.len() >= 1
            &&& c.0.len() >= 2 ==> ((match c.1 {
                Option::Some(rem) => vm_height(rem) < vm_height(v),
                Option::None => true,
            }) && vm_height(c.2) < vm_height(v))
            &&& c.0.len() == 1 ==> c.2 == v && (match c.1 {
                Option::Some(rem) => rem == v,
                Option::None => true,
            })
        }),
    decreases v,
{
    if 1 < max && (v matches ValueModel::Obj { .. }) && v->Obj_0.len() == 1 {
        let entries = v->Obj_0;
        let inner = entries[0].1;
        lemma_chain_height(entries[0].0, inner, max - 1);
        lemma_entries_height(entries);
        assert(vm_height(inner) <= vm_entries_height(entries));
        assert(vm_height(inner) < vm_height(v));
        let sub = chain_collect(entries[0].0, inner, max - 1);
        if sub.0.len() == 1 {
            assert(sub.2 == inner);
        }
    }
}

/// Encode a JSON value as TOON lines.
pub fn encode_json_value(value: &JsonValue, options: &ResolvedEncodeOptions) -> (out: Vec<String>)
    ensures
        match value_model(*value) {
            ValueModel::Prim(p) => {
                let enc = encode_prim_spec(p, options.delimiter);
                if enc.len() == 0 {
                    out@.len() == 0
                } else {
                    out@.len() == 1 && out@[0]@ == enc
                }
            },
            ValueModel::Arr(_) => out@.len() >= 1,
            ValueModel::Obj(es) => out@.len() >= es.len(),
        },
        (value_model(*value) matches ValueModel::Obj(es) && all_prim_entries(es)) ==> ({
            let es = value_model(*value)->Obj_0;
            &&& out@.len() == es.len()
            &&& (forall|t: int|
                0 <= t < es.len() ==> (#[trigger] out@[t])@ == flat_entry_line(
                    es[t].0,
                    es[t].1->Prim_0,
                    0,
                    options.indent as int,
                    options.delimiter,
                ))
        }),
{
    let mut out: Vec<String> = Vec::new();
    match value {
        JsonValue::Primitive(primitive) => {
            let encoded = encode_primitive(primitive, options.delimiter);
            if encoded.as_str().unicode_len() > 0 {
                out.push(encoded);
            }
        },
        JsonValue::Array(items) => {
            proof {
                assert(decreases_to!(*value => *items));
                lemma_arr_model(items@);
            }
            encode_array_lines(None, items, 0, options, &mut out);
        },
        JsonValue::Object(entries) => {
            proof {
                lemma_obj_model(entries@);
            }
            encode_object_lines(entries, 0, options, None, None, None, &mut out);
            proof {
                assert(value_model(*value)->Obj_0 == obj_model(entries@));
                let es = obj_model(entries@);
                if all_prim_entries(es) {
                    assert forall|t: int| 0 <= t < es.len() implies (#[trigger] out@[t])@
                        == flat_entry_line(
                        es[t].0,
                        es[t].1->Prim_0,
                        0,
                        options.indent as int,
                        options.delimiter,
                    ) by {
                        assert(out@[0 + t]@ == flat_entry_line(
                            es[t].0,
                            es[t].1->Prim_0,
                            0,
                            options.indent as int,
                            options.delimiter,
                        ));
                    }
                }
            }
        },
    }
    out
}

/// Encode an object's entries, at least one line per entry; a flat object
/// (every value a primitive) writes exactly one `key: value` line per
/// entry. At the document root, dotted keys are remembered so folding
/// cannot shadow them.
#[verifier::loop_isolation(false)]
fn encode_object_lines(
    value: &JsonObject,
    depth: usize,
    options: &ResolvedEncodeOptions,
    root_literal_keys: Option<&Vec<String>>,
    path_prefix: Option<&String>,
    remaining_depth: Option<usize>,
    out: &mut Vec<String>,
)
    ensures
        final(out)@.len() >= old(out)@.len() + value@.len(),
        final(out)@.take(old(out)@.len() as int) == old(out)@,
        all_prim_entries(obj_model(value@)) ==> ({
            let em = obj_model(value@);
            let n = old(out)@.len() as int;
            &&& final(out)@.len() == n + em.len()
            &&& (forall|t: int|
                0 <= t < em.len() ==> (#[trigger] final(out)@[n + t])@ == flat_entry_line(
                    em[t].0,
                    em[t].1->Prim_0,
                    depth as int,
                    options.indent as int,
                    options.delimiter,
                ))
        }),
    decreases vm_entries_height(obj_model(value@)), 1int,
{
    let ghost n0 = out@.len();
    let mut keys: Vec<String> = Vec::new();
    let mut i: usize = 0;
    while i < value.len()
        invariant
            0 <= i <= value@.len(),
            keys@.len() == i,
        decreases value.len() - i,
    {
        keys.push(value[i].0.clone());
        i += 1;
    }

    let mut root_literal_set: Vec<String> = Vec::new();
    let use_computed_root: bool = depth == 0 && match root_literal_keys {
        Option::Some(_) => false,
        Option::None => true,
    };
    if use_computed_root {
        let mut k: usize = 0;
        while k < keys.len()
            invariant
                0 <= k <= keys@.len(),
            decreases keys.len() - k,
        {
            let kc = chars_of(keys[k].as_str());
            if contains_char(&kc, '.') {
                root_literal_set.push(keys[k].clone());
            }
            k += 1;
        }
    }

    let effective_flatten_depth: usize = match remaining_depth {
        Option::Some(d) => d,
        Option::None => options.flatten_depth,
    };

    let mut j: usize = 0;
    while j < value.len()
        invariant
            0 <= j <= value@.len(),
            out@.len() >= n0 + j,
            out@.take(n0 as int) == old(out)@,
            all_prim_entries(obj_model(value@)) ==> ({
                let em = obj_model(value@);
                &&& out@.len() == n0 + j
                &&& (forall|t: int|
                    0 <= t < j ==> (#[trigger] out@[n0 + t])@ == flat_entry_line(
                        em[t].0,
                        em[t].1->Prim_0,
                        depth as int,
                        options.indent as int,
                        options.delimiter,
                    ))
            }),
        decreases value.len() - j,
    {
        proof {
            lemma_obj_model(value@);
            lemma_entries_height(obj_model(value@));
            assert(obj_model(value@)[j as int] == (value@[j as int].0@, value_model(
                value@[j as int].1,
            )));
        }
        let ghost n_mid = out@.len();
        let root_arg: Option<&Vec<String>> = if use_computed_root {
            Some(&root_literal_set)
        } else {
            root_literal_keys
        };
        encode_key_value_pair_lines(
            &value[j].0,
            &value[j].1,
            depth,
            options,
            &keys,
            root_arg,
            path_prefix,
            effective_flatten_depth,
            out,
        );
        proof {
            assert(out@.take(n0 as int) =~= out@.take(n_mid as int).take(n0 as int));
            let em = obj_model(value@);
            if all_prim_entries(em) {
                assert(em[j as int].1 matches ValueModel::Prim(_));
                assert(try_fold_model(
                    value@[j as int].0@,
                    value_model(value@[j as int].1),
                    keys@.map_values(|s: String| s@),
                    options.key_folding,
                    effective_flatten_depth as int,
                    match root_arg {
                        Option::Some(ks) => Some(ks@.map_values(|s: String| s@)),
                        Option::None => None,
                    },
                    match path_prefix {
                        Option::Some(p) => Some(p@),
                        Option::None => None,
                    },
                ) is None);
                assert forall|t: int| 0 <= t < j + 1 implies (#[trigger] out@[n0 + t])@
                    == flat_entry_line(
                    em[t].0,
                    em[t].1->Prim_0,
                    depth as int,
                    options.indent as int,
                    options.delimiter,
                ) by {
                    if t < j {
                        assert(out@[n0 + t] == out@.take(n_mid as int)[n0 + t]);
                    }
                }
            }
        }
        j += 1;
    }
    proof {
        lemma_obj_model(value@);
    }
}

/// Encode one `key: value` entry: fold the key when safe folding allows,
/// then write the value in its most compact shape. When no fold applies, a
/// primitive entry is exactly its one `key: value` line, and an object
/// entry opens with exactly its `key:` line followed by a line group per
/// field.
#[verifier::rlimit(100)]
#[verifier::loop_isolation(false)]
fn encode_key_value_pair_lines(
    key: &String,
    value: &JsonValue,
    depth: usize,
    options: &ResolvedEncodeOptions,
    siblings: &Vec<String>,
    root_literal_keys: Option<&Vec<String>>,
    path_prefix: Option<&String>,
    flatten_depth: usize,
    out: &mut Vec<String>,
)
    ensures
        final(out)@.len() > old(out)@.len(),
        final(out)@.take(old(out)@.len() as int) == old(out)@,
        ({
            let fold = try_fold_model(
                key@,
                value_model(*value),
                siblings@.map_values(|s: String| s@),
                options.key_folding,
                flatten_depth as int,
                match root_literal_keys {
                    Option::Some(ks) => Some(ks@.map_values(|s: String| s@)),
                    Option::None => None,
                },
                match path_prefix {
                    Option::Some(p) => Some(p@),
                    Option::None => None,
                },
            );
            let n = old(out)@.len() as int;
            fold is None ==> match value_model(*value) {
                ValueModel::Prim(p) => {
                    &&& final(out)@.len() == n + 1
                    &&& final(out)@[n]@ == indented_spec(
                        depth as int,
                        options.indent as int,
                        encode_key_spec(key@) + seq![':', ' '] + encode_prim_spec(
                            p,
                            options.delimiter,
                        ),
                    )
                },
                ValueModel::Obj(es) => {
                    &&& final(out)@.len() >= n + 1 + es.len()
                    &&& final(out)@[n]@ == indented_spec(
                        depth as int,
                        options.indent as int,
                        encode_key_spec(key@) + seq![':'],
                    )
                },
                ValueModel::Arr(_) => true,
            }
        }),
    decreases vm_height(value_model(*value)), 0int,
{
    let ghost n0 = out@.len();
    let current_path: String = match path_prefix {
        Option::Some(prefix) => {
            let mut p = prefix.clone();
            p.append(".");
            p.append(key.as_str());
            p
        },
        Option::None => key.clone(),
    };

    match try_fold_key_chain(
        key,
        value,
        siblings,
        options,
        root_literal_keys,
        path_prefix,
        flatten_depth,
    ) {
        Option::Some(folded) => {
            proof {
                lemma_chain_height(key@, value_model(*value), flatten_depth as int);
            }
            let encoded_key = encode_key(folded.folded_key.as_str());

            let remainder_is_none = match &folded.remainder {
                Option::Some(_) => false,
                Option::None => true,
            };
            if remainder_is_none {
                match &folded.leaf_value {
                    JsonValue::Primitive(primitive) => {
                        let encoded = encode_primitive(primitive, options.delimiter);
                        let mut line = encoded_key;
                        line.append(": ");
                        line.append(encoded.as_str());
                        out.push(indented_line(depth, line.as_str(), options.indent));
                        proof {
                            assert(out@.take(n0 as int) =~= old(out)@);
                        }
                        return ;
                    },
                    JsonValue::Array(items) => {
                        proof {
                            assert(vm_height(value_model(folded.leaf_value)) < vm_height(
                                value_model(*value),
                            ));
                            assert(decreases_to!(folded.leaf_value => *items));
                            lemma_arr_model(items@);
                            assert(vm_items_height(arr_model(items@)) < vm_height(
                                value_model(folded.leaf_value),
                            ));
                        }
                        encode_array_lines(
                            Some(&folded.folded_key),
                            items,
                            depth,
                            options,
                            out,
                        );
                        proof {
                            assert(out@.take(n0 as int) =~= old(out)@);
                        }
                        return ;
                    },
                    JsonValue::Object(entries) => {
                        if entries.len() == 0 {
                            let mut line = encoded_key;
                            line.append(":");
                            out.push(indented_line(depth, line.as_str(), options.indent));
                            proof {
                                assert(out@.take(n0 as int) =~= old(out)@);
                            }
                            return ;
                        }
                    },
                }
            }

            match &folded.remainder {
                Option::Some(rem) => {
                    match rem {
                        JsonValue::Object(entries) => {
                            let mut line = encoded_key;
                            line.append(":");
                            out.push(indented_line(depth, line.as_str(), options.indent));
                            proof {
                                assert(out@.take(n0 as int) =~= old(out)@);
                            }
                            let ghost n1 = out@.len();
                            let remaining = if folded.segment_count <= flatten_depth {
                                flatten_depth - folded.segment_count
                            } else {
                                0
                            };
                            let folded_path: String = match path_prefix {
                                Option::Some(prefix) => {
                                    let mut p = prefix.clone();
                                    p.append(".");
                                    p.append(folded.folded_key.as_str());
                                    p
                                },
                                Option::None => folded.folded_key.clone(),
                            };
                            proof {
                                assert(vm_height(value_model(*rem)) < vm_height(
                                    value_model(*value),
                                ));
                                lemma_obj_model(entries@);
                                assert(vm_entries_height(obj_model(entries@)) < vm_height(
                                    value_model(*rem),
                                ));
                            }
                            let next_depth: usize = if depth < usize::MAX {
                                depth + 1
                            } else {
                                depth
                            };
                            encode_object_lines(
                                entries,
                                next_depth,
                                options,
                                root_literal_keys,
                                Some(&folded_path),
                                Some(remaining),
                                out,
                            );
                            proof {
                                assert(out@.take(n0 as int) =~= out@.take(n1 as int).take(
                                    n0 as int,
                                ));
                            }
                            return ;
                        },
                        _ => {},
                    }
                },
                Option::None => {},
            }
        },
        Option::None => {},
    }

    let encoded_key = encode_key(key.as_str());

    match value {
        JsonValue::Primitive(primitive) => {
            let encoded = encode_primitive(primitive, options.delimiter);
            let mut line = encoded_key;
            line.append(": ");
            line.append(encoded.as_str());
            proof {
                reveal_strlit(": ");
                assert(line@ =~= encode_key_spec(key@) + seq![':', ' '] + encode_prim_spec(
                    prim_model(*primitive),
                    options.delimiter,
                ));
            }
            out.push(indented_line(depth, line.as_str(), options.indent));
            proof {
                assert(out@.take(n0 as int) =~= old(out)@);
            }
        },
        JsonValue::Array(items) => {
            proof {
                assert(decreases_to!(*value => *items));
                lemma_arr_model(items@);
                assert(vm_items_height(arr_model(items@)) < vm_height(value_model(*value)));
            }
            encode_array_lines(Some(key), items, depth, options, out);
            proof {
                assert(out@.take(n0 as int) =~= old(out)@);
            }
        },
        JsonValue::Object(entries) => {
            let mut line = encoded_key;
            line.append(":");
            proof {
                reveal_strlit(":");
                assert(line@ =~= encode_key_spec(key@) + seq![':']);
                lemma_obj_model(entries@);
            }
            out.push(indented_line(depth, line.as_str(), options.indent));
            let ghost head_line = out@[n0 as int];
            proof {
                assert(out@.take(n0 as int) =~= old(out)@);
                assert(head_line@ == indented_spec(
                    depth as int,
                    options.indent as int,
                    encode_key_spec(key@) + seq![':'],
                ));
            }
            let ghost n1 = out@.len();
            if entries.len() > 0 {
                proof {
                    lemma_obj_model(entries@);
                    assert(vm_entries_height(obj_model(entries@)) < vm_height(
                        value_model(*value),
                    ));
                }
                let next_depth: usize = if depth < usize::MAX {
                    depth + 1
                } else {
                    depth
                };
                encode_object_lines(
                    entries,
                    next_depth,
                    options,
                    root_literal_keys,
                    Some(&current_path),
                    Some(flatten_depth),
                    out,
                );
                proof {
                    assert(out@.take(n0 as int) =~= out@.take(n1 as int).take(n0 as int));
                    assert(out@[n0 as int] == out@.take(n1 as int)[n0 as int]);
                    assert(out@[n0 as int] == head_line);
                }
            }
            proof {
                lemma_obj_model(entries@);
                assert(out@.len() >= n0 + 1 + obj_model(entries@).len());
            }
        },
    }
}

/// Pick an array's shape and write it: empty header, inline primitives,
/// list of primitive rows, tabular block, or one list item per element. An
/// empty or all-primitive array is exactly its one header line.
#[verifier::loop_isolation(false)]
fn encode_array_lines(
    key: Option<&String>,
    value: &JsonArray,
    depth: usize,
    options: &ResolvedEncodeOptions,
    out: &mut Vec<String>,
)
    ensures
        final(out)@.len() > old(out)@.len(),
        final(out)@.take(old(out)@.len() as int) == old(out)@,
        ({
            let items = arr_model(value@);
            let key_m = match key {
                Option::Some(k) => Some(k@),
                Option::None => None,
            };
            let n = old(out)@.len() as int;
            &&& value@.len() == 0 ==> final(out)@.len() == n + 1 && final(out)@[n]@
                == indented_spec(
                depth as int,
                options.indent as int,
                header_line_spec(0, key_m, None, options.delimiter),
            )
            &&& (value@.len() > 0 && (forall|i: int|
                0 <= i < value@.len() ==> (#[trigger] value@[i]) matches JsonValue::Primitive(
                    _,
                ))) ==> final(out)@.len() == n + 1 && final(out)@[n]@ == indented_spec(
                depth as int,
                options.indent as int,
                inline_array_spec(items, options.delimiter, key_m),
            )
            &&& (value@.len() > 0 && (forall|i: int|
                0 <= i < items.len() ==> value_is_prim_array(#[trigger] items[i])))
                ==> final(out)@.map_values(|s: String| s@) == old(out)@.map_values(
                |s: String| s@,
            ) + seq![
                indented_spec(
                    depth as int,
                    options.indent as int,
                    header_line_spec(items.len() as int, key_m, None, options.delimiter),
                ),
            ] + prim_rows_lines(
                items,
                inc_depth(depth as int),
                options.indent as int,
                options.delimiter,
            )
            &&& (value@.len() > 0 && (forall|i: int|
                0 <= i < value@.len() ==> (#[trigger] value@[i]) matches JsonValue::Object(..))
                && items[0]->Obj_0.len() > 0 && is_tabular_model(
                items,
                keys_of(items[0]->Obj_0),
            )) ==> final(out)@.map_values(|s: String| s@) == old(out)@.map_values(|s: String| s@)
                + seq![
                indented_spec(
                    depth as int,
                    options.indent as int,
                    header_line_spec(
                        items.len() as int,
                        key_m,
                        Some(keys_of(items[0]->Obj_0)),
                        options.delimiter,
                    ),
                ),
            ] + tab_row_lines(
                items,
                keys_of(items[0]->Obj_0),
                inc_depth(depth as int),
                options.indent as int,
                options.delimiter,
            )
        }),
    decreases vm_items_height(arr_model(value@)), 6int,
{
    let ghost n0 = out@.len();
    let ghost items_m = arr_model(value@);
    let ghost old_lines = old(out)@.map_values(|s: String| s@);
    let ghost key_m: Option<Seq<char>> = match key {
        Option::Some(k) => Some(k@),
        Option::None => None,
    };
    proof {
        lemma_arr_model(value@);
    }
    let key_str: Option<&str> = match key {
        Option::Some(k) => Some(k.as_str()),
        Option::None => None,
    };
    if value.len() == 0 {
        let header = format_header(0, key_str, None, options.delimiter);
        out.push(indented_line(depth, header.as_str(), options.indent));
        proof {
            assert(out@.take(n0 as int) =~= old(out)@);
        }
        return ;
    }

    if crate::value::is_array_of_primitives(value) {
        let array_line = encode_inline_array_line(value, options.delimiter, key_str);
        out.push(indented_line(depth, array_line.as_str(), options.indent));
        proof {
            assert(out@.take(n0 as int) =~= old(out)@);
            assert(!value_is_prim_array(items_m[0]));
        }
        return ;
    }

    if crate::value::is_array_of_arrays(value) {
        let mut all_primitive_arrays = true;
        let mut i: usize = 0;
        while i < value.len()
            invariant
                0 <= i <= value@.len(),
                all_primitive_arrays == (forall|k: int|
                    0 <= k < i ==> value_is_prim_array(#[trigger] items_m[k])),
            decreases value.len() - i,
        {
            let mut this_ok = false;
            match &value[i] {
                JsonValue::Array(its) => {
                    if crate::value::is_array_of_primitives(its) {
                        this_ok = true;
                    }
                    proof {
                        lemma_arr_model(its@);
                        assert(items_m[i as int] == value_model(value@[i as int]));
                        assert(items_m[i as int] == ValueModel::Arr(arr_model(its@)));
                        if this_ok {
                            assert forall|j: int|
                                0 <= j < arr_model(its@).len() implies (#[trigger] arr_model(
                                its@,
                            )[j]) matches ValueModel::Prim(_) by {
                                assert(arr_model(its@)[j] == value_model(its@[j]));
                                assert(its@[j] matches JsonValue::Primitive(_));
                            }
                            assert(value_is_prim_array(items_m[i as int]));
                        } else {
                            let j = choose|j: int|
                                0 <= j < its@.len() && !((#[trigger] its@[j]) matches
                                JsonValue::Primitive(_));
                            assert(arr_model(its@)[j] == value_model(its@[j]));
                            assert(!(arr_model(its@)[j] matches ValueModel::Prim(_)));
                            assert(!value_is_prim_array(items_m[i as int]));
                        }
                        assert(this_ok == value_is_prim_array(items_m[i as int]));
                    }
                },
                _ => {
                    proof {
                        assert(!value_is_prim_array(items_m[i as int]));
                    }
                },
            }
            if !this_ok {
                all_primitive_arrays = false;
            } else {
                proof {
                    if all_primitive_arrays {
                        assert(forall|k: int|
                            0 <= k < i + 1 ==> value_is_prim_array(#[trigger] items_m[k]));
                    }
                }
            }
            i += 1;
        }
        if all_primitive_arrays {
            let header = format_header(value.len(), key_str, None, options.delimiter);
            out.push(indented_line(depth, header.as_str(), options.indent));
            let ghost header_lines = out@.map_values(|s: String| s@);
            proof {
                assert(out@.take(n0 as int) =~= old(out)@);
                assert(header_lines =~= old_lines + seq![
                    indented_spec(
                        depth as int,
                        options.indent as int,
                        header_line_spec(
                            items_m.len() as int,
                            key_m,
                            None,
                            options.delimiter,
                        ),
                    ),
                ]);
                assert(items_m.skip(0) =~= items_m);
            }
            let next_depth: usize = if depth < usize::MAX {
                depth + 1
            } else {
                depth
            };
            let mut k: usize = 0;
            while k < value.len()
                invariant
                    0 <= k <= value@.len(),
                    out@.len() > n0,
                    out@.take(n0 as int) == old(out)@,
                    header_lines + prim_rows_lines(
                        items_m,
                        next_depth as int,
                        options.indent as int,
                        options.delimiter,
                    ) == out@.map_values(|s: String| s@) + prim_rows_lines(
                        items_m.skip(k as int),
                        next_depth as int,
                        options.indent as int,
                        options.delimiter,
                    ),
                decreases value.len() - k,
            {
                proof {
                    assert(items_m.skip(k as int)[0] == items_m[k as int]);
                    assert(items_m.skip(k as int).drop_first() =~= items_m.skip(k + 1));
                }
                let ghost lines_before = out@.map_values(|s: String| s@);
                match &value[k] {
                    JsonValue::Array(its) => {
                        proof {
                            lemma_arr_model(its@);
                            assert(items_m[k as int] == value_model(value@[k as int]));
                        }
                        let line = encode_inline_array_line(its, options.delimiter, None);
                        out.push(indented_list_item(next_depth, line.as_str(), options.indent));
                        proof {
                            assert(out@.take(n0 as int) =~= out@.drop_last().take(n0 as int));
                            let piece = list_item_spec(
                                next_depth as int,
                                options.indent as int,
                                inline_array_spec(
                                    items_m[k as int]->Arr_0,
                                    options.delimiter,
                                    None,
                                ),
                            );
                            assert(out@.map_values(|s: String| s@) =~= lines_before + seq![
                                piece,
                            ]);
                            assert(lines_before + (seq![piece] + prim_rows_lines(
                                items_m.skip(k + 1),
                                next_depth as int,
                                options.indent as int,
                                options.delimiter,
                            )) =~= (lines_before + seq![piece]) + prim_rows_lines(
                                items_m.skip(k + 1),
                                next_depth as int,
                                options.indent as int,
                                options.delimiter,
                            ));
                        }
                    },
                    _ => {},
                }
                k += 1;
            }
            proof {
                assert(items_m.skip(items_m.len() as int) =~= Seq::<ValueModel>::empty());
                assert(out@.map_values(|s: String| s@) + Seq::<Seq<char>>::empty()
                    =~= out@.map_values(|s: String| s@));
                assert(!(items_m[0] matches ValueModel::Obj { .. }));
            }
            return ;
        }
    }

    let ghost tab_cond = (forall|i: int|
        0 <= i < value@.len() ==> (#[trigger] value@[i]) matches JsonValue::Object(..))
        && items_m[0]->Obj_0.len() > 0 && is_tabular_model(items_m, keys_of(items_m[0]->Obj_0));
    let all_objects = crate::value::is_array_of_objects(value);
    if all_objects {
        match extract_tabular_header(value) {
            Option::Some(header) => {
                let formatted_header = format_header(
                    value.len(),
                    key_str,
                    Some(&header),
                    options.delimiter,
                );
                out.push(indented_line(depth, formatted_header.as_str(), options.indent));
                let ghost header_lines = out@.map_values(|s: String| s@);
                proof {
                    assert(out@.take(n0 as int) =~= old(out)@);
                    assert(header_lines =~= old_lines + seq![
                        indented_spec(
                            depth as int,
                            options.indent as int,
                            header_line_spec(
                                items_m.len() as int,
                                key_m,
                                Some(keys_of(items_m[0]->Obj_0)),
                                options.delimiter,
                            ),
                        ),
                    ]);
                    assert(!value_is_prim_array(items_m[0]));
                }
                let ghost n1 = out@.len();
                let next_depth: usize = if depth < usize::MAX {
                    depth + 1
                } else {
                    depth
                };
                write_tabular_rows_lines(value, &header, next_depth, options, out);
                proof {
                    assert(out@.take(n0 as int) =~= out@.take(n1 as int).take(n0 as int));
                    assert(out@.map_values(|s: String| s@) =~= (old_lines + seq![
                        indented_spec(
                            depth as int,
                            options.indent as int,
                            header_line_spec(
                                items_m.len() as int,
                                key_m,
                                Some(keys_of(items_m[0]->Obj_0)),
                                options.delimiter,
                            ),
                        ),
                    ]) + tab_row_lines(
                        items_m,
                        keys_of(items_m[0]->Obj_0),
                        next_depth as int,
                        options.indent as int,
                        options.delimiter,
                    ));
                }
                return ;
            },
            Option::None => {
                proof {
                    if tab_cond {
                        assert(value@[0] matches JsonValue::Object(..));
                        assert(items_m[0] == value_model(value@[0]));
                        match value@[0] {
                            JsonValue::Object(es) => {
                                assert(items_m[0] == ValueModel::Obj(obj_model(es@)));
                            },
                            _ => {},
                        }
                        assert(items_m[0] matches ValueModel::Obj { .. });
                        assert(false);
                    }
                    assert(!tab_cond);
                }
            },
        }
    } else {
        proof {
            assert(!tab_cond);
        }
    }

    encode_mixed_array_as_list_items_lines(key_str, value, depth, options, out);
    proof {
        assert(out@.take(n0 as int) =~= old(out)@);
        if forall|i: int| 0 <= i < items_m.len() ==> value_is_prim_array(#[trigger] items_m[i]) {
            assert forall|k: int| 0 <= k < value@.len() implies (#[trigger] value@[k]) matches
                JsonValue::Array(..) by {
                assert(items_m[k] == value_model(value@[k]));
                assert(value_is_prim_array(items_m[k]));
                match value@[k] {
                    JsonValue::Array(_) => {},
                    JsonValue::Primitive(_) => {
                        assert(!(items_m[k] matches ValueModel::Arr(_)));
                    },
                    JsonValue::Object(_) => {
                        assert(!(items_m[k] matches ValueModel::Arr(_)));
                    },
                }
            }
            assert(false);
        }
        assert(!tab_cond);
    }
}

/// The first row's keys, when every row is an object with exactly those
/// primitive-valued fields.
fn extract_tabular_header(rows: &JsonArray) -> (r: Option<Vec<String>>)
    ensures
        match r {
            Option::Some(h) => {
                &&& rows@.len() > 0
                &&& arr_model(rows@)[0] matches ValueModel::Obj { .. }
                &&& h@.map_values(|s: String| s@) == keys_of(arr_model(rows@)[0]->Obj_0)
                &&& h@.len() > 0
                &&& is_tabular_model(arr_model(rows@), h@.map_values(|s: String| s@))
            },
            Option::None => {
                ||| rows@.len() == 0
                ||| !(arr_model(rows@)[0] matches ValueModel::Obj { .. })
                ||| arr_model(rows@)[0]->Obj_0.len() == 0
                ||| !is_tabular_model(arr_model(rows@), keys_of(arr_model(rows@)[0]->Obj_0))
            },
        },
{
    proof {
        lemma_arr_model(rows@);
    }
    if rows.len() == 0 {
        return None;
    }
    let first_entries = match &rows[0] {
        JsonValue::Object(entries) => entries,
        _ => {
            return None;
        },
    };
    proof {
        lemma_obj_model(first_entries@);
    }
    if first_entries.len() == 0 {
        return None;
    }
    let ghost first_keys = keys_of(obj_model(first_entries@));
    let mut header: Vec<String> = Vec::new();
    let mut i: usize = 0;
    while i < first_entries.len()
        invariant
            0 <= i <= first_entries@.len(),
            header@.len() == i,
            forall|k: int| 0 <= k < i ==> (#[trigger] header@[k])@ == first_entries@[k].0@,
        decreases first_entries.len() - i,
    {
        header.push(first_entries[i].0.clone());
        i += 1;
    }
    proof {
        lemma_obj_model(first_entries@);
        assert(header@.map_values(|s: String| s@) =~= first_keys);
    }
    if is_tabular_array(rows, &header) {
        Some(header)
    } else {
        None
    }
}

/// Is every row an object with exactly the header's fields, all primitive?
fn is_tabular_array(rows: &JsonArray, header: &Vec<String>) -> (r: bool)
    ensures
        r == is_tabular_model(arr_model(rows@), header@.map_values(|s: String| s@)),
{
    let ghost rows_m = arr_model(rows@);
    let ghost header_m = header@.map_values(|s: String| s@);
    proof {
        lemma_arr_model(rows@);
    }
    let mut i: usize = 0;
    while i < rows.len()
        invariant
            0 <= i <= rows@.len(),
            rows_m == arr_model(rows@),
            header_m == header@.map_values(|s: String| s@),
            rows_m.len() == rows@.len(),
            forall|k: int| 0 <= k < rows@.len() ==> rows_m[k] == value_model(#[trigger] rows@[k]),
            forall|k: int| 0 <= k < i ==> tabular_row_ok(#[trigger] rows_m[k], header_m),
        decreases rows.len() - i,
    {
        let entries = match &rows[i] {
            JsonValue::Object(entries) => entries,
            _ => {
                proof {
                    if is_tabular_model(rows_m, header_m) {
                        assert(tabular_row_ok(rows_m[i as int], header_m));
                    }
                }
                return false;
            },
        };
        proof {
            lemma_obj_model(entries@);
        }
        if entries.len() != header.len() {
            proof {
                if is_tabular_model(rows_m, header_m) {
                    assert(tabular_row_ok(rows_m[i as int], header_m));
                }
            }
            return false;
        }
        let mut j: usize = 0;
        while j < header.len()
            invariant
                0 <= i < rows@.len(),
                0 <= j <= header@.len(),
                rows_m == arr_model(rows@),
                header_m == header@.map_values(|s: String| s@),
                rows_m.len() == rows@.len(),
                forall|k: int|
                    0 <= k < rows@.len() ==> rows_m[k] == value_model(#[trigger] rows@[k]),
                rows@[i as int] matches JsonValue::Object(es) && es == *entries,
                forall|k: int|
                    0 <= k < j ==> ((#[trigger] obj_get_model(
                        obj_model(entries@),
                        header_m[k],
                    )) matches Some(v) && v matches ValueModel::Prim(_)),
            decreases header.len() - j,
        {
            proof {
                assert(header_m[j as int] == header@[j as int]@);
            }
            let mut row_bad = false;
            match object_get(entries, &header[j]) {
                Option::Some(v) => {
                    if !crate::value::is_json_primitive(v) {
                        row_bad = true;
                        proof {
                            match v {
                                JsonValue::Primitive(_) => {},
                                _ => {
                                    assert(!(value_model(*v) matches ValueModel::Prim(_)));
                                },
                            }
                        }
                    }
                },
                Option::None => {
                    row_bad = true;
                },
            }
            if row_bad {
                proof {
                    if is_tabular_model(rows_m, header_m) {
                        assert(tabular_row_ok(rows_m[i as int], header_m));
                        assert(obj_get_model(
                            rows_m[i as int]->Obj_0,
                            header_m[j as int],
                        ) matches Some(v) && v matches ValueModel::Prim(_));
                    }
                }
                return false;
            }
            j += 1;
        }
        proof {
            assert(tabular_row_ok(rows_m[i as int], header_m)) by {
                assert(rows_m[i as int] == value_model(rows@[i as int]));
                lemma_obj_model(entries@);
            }
        }
        i += 1;
    }
    true
}

/// The first entry under `key`, if any.
fn object_get<'a>(entries: &'a JsonObject, key: &String) -> (r: Option<&'a JsonValue>)
    ensures
        match r {
            Option::Some(v) => obj_get_model(obj_model(entries@), key@) == Some(value_model(*v)),
            Option::None => obj_get_model(obj_model(entries@), key@) is None,
        },
{
    let mut i: usize = 0;
    while i < entries.len()
        invariant
            0 <= i <= entries@.len(),
            forall|k: int| 0 <= k < i ==> (#[trigger] entries@[k]).0@ != key@,
        decreases entries.len() - i,
    {
        if entries[i].0 == *key {
            proof {
                lemma_obj_model(entries@);
                lemma_obj_get_found(obj_model(entries@), key@, i as int);
            }
            return Some(&entries[i].1);
        }
        i += 1;
    }
    proof {
        lemma_obj_model(entries@);
        lemma_obj_get_missing(obj_model(entries@), key@);
    }
    None
}

proof fn lemma_obj_get_found(entries: Seq<(Seq<char>, ValueModel)>, key: Seq<char>, i: int)
    requires
        0 <= i < entries.len(),
        entries[i].0 == key,
        forall|k: int| 0 <= k < i ==> (#[trigger] entries[k]).0 != key,
    ensures
        obj_get_model(entries, key) == Some(entries[i].1),
    decreases i,
{
    if i > 0 {
        lemma_obj_get_found(entries.drop_first(), key, i - 1);
    }
}

proof fn lemma_obj_get_missing(entries: Seq<(Seq<char>, ValueModel)>, key: Seq<char>)
    requires
        forall|k: int| 0 <= k < entries.len() ==> (#[trigger] entries[k]).0 != key,
    ensures
        obj_get_model(entries, key) is None,
    decreases entries.len(),
{
    if entries.len() > 0 {
        lemma_obj_get_missing(entries.drop_first(), key);
    }
}

/// Write one delimiter-joined row per tabular element, exactly the text of
/// [`tab_row_lines`]: a row missing a field or holding a non-primitive
/// writes `null` in that spot; a non-object element writes nothing.
fn write_tabular_rows_lines(
    rows: &JsonArray,
    header: &Vec<String>,
    depth: usize,
    options: &ResolvedEncodeOptions,
    out: &mut Vec<String>,
)
    ensures
        final(out)@.len() >= old(out)@.len(),
        final(out)@.take(old(out)@.len() as int) == old(out)@,
        final(out)@.map_values(|s: String| s@) == old(out)@.map_values(|s: String| s@)
            + tab_row_lines(
            arr_model(rows@),
            header@.map_values(|s: String| s@),
            depth as int,
            options.indent as int,
            options.delimiter,
        ),
        (forall|k: int|
            0 <= k < rows@.len() ==> (#[trigger] rows@[k]) matches JsonValue::Object(..))
            ==> final(out)@.len() == old(out)@.len() + rows@.len(),
{
    let ghost n0 = out@.len();
    let ghost rows_m = arr_model(rows@);
    let ghost header_m = header@.map_values(|s: String| s@);
    let ghost old_lines = old(out)@.map_values(|s: String| s@);
    proof {
        lemma_arr_model(rows@);
        assert(rows_m.skip(0) =~= rows_m);
    }
    let mut i: usize = 0;
    while i < rows.len()
        invariant
            0 <= i <= rows@.len(),
            rows_m == arr_model(rows@),
            header_m == header@.map_values(|s: String| s@),
            old_lines == old(out)@.map_values(|s: String| s@),
            rows_m.len() == rows@.len(),
            forall|k: int| 0 <= k < rows@.len() ==> rows_m[k] == value_model(#[trigger] rows@[k]),
            out@.len() >= n0,
            out@.take(n0 as int) == old(out)@,
            old_lines + tab_row_lines(
                rows_m,
                header_m,
                depth as int,
                options.indent as int,
                options.delimiter,
            ) == out@.map_values(|s: String| s@) + tab_row_lines(
                rows_m.skip(i as int),
                header_m,
                depth as int,
                options.indent as int,
                options.delimiter,
            ),
            (forall|k: int|
                0 <= k < rows@.len() ==> (#[trigger] rows@[k]) matches JsonValue::Object(..))
                ==> out@.len() == n0 + i,
        decreases rows.len() - i,
    {
        proof {
            assert(rows_m.skip(i as int)[0] == rows_m[i as int]);
            assert(rows_m.skip(i as int).drop_first() =~= rows_m.skip(i + 1));
        }
        let ghost lines_before = out@.map_values(|s: String| s@);
        match &rows[i] {
            JsonValue::Object(entries) => {
                proof {
                    lemma_obj_model(entries@);
                }
                let mut values: Vec<JsonPrimitive> = Vec::new();
                let mut j: usize = 0;
                while j < header.len()
                    invariant
                        0 <= j <= header@.len(),
                        header_m == header@.map_values(|s: String| s@),
                        values@.len() == j,
                        rows@[i as int] matches JsonValue::Object(es) && es == *entries,
                        forall|k: int|
                            0 <= k < j ==> prim_model(#[trigger] values@[k]) == row_fill(
                                obj_model(entries@),
                                header_m,
                            )[k],
                    decreases header.len() - j,
                {
                    proof {
                        assert(header_m[j as int] == header@[j as int]@);
                    }
                    match object_get(entries, &header[j]) {
                        Option::Some(v) => {
                            match v {
                                JsonValue::Primitive(p) => {
                                    values.push(clone_primitive(p));
                                },
                                _ => {
                                    values.push(crate::value::StringOrNumberOrBoolOrNull::Null);
                                },
                            }
                        },
                        Option::None => {
                            values.push(crate::value::StringOrNumberOrBoolOrNull::Null);
                        },
                    }
                    j += 1;
                }
                proof {
                    assert(values@.map_values(|p: JsonPrimitive| prim_model(p)) =~= row_fill(
                        obj_model(entries@),
                        header_m,
                    ));
                }
                let joined = encode_and_join_primitives(&values, options.delimiter);
                out.push(indented_line(depth, joined.as_str(), options.indent));
                proof {
                    assert(out@.take(n0 as int) =~= out@.drop_last().take(n0 as int));
                    assert(out@.map_values(|s: String| s@) =~= lines_before + seq![
                        indented_spec(
                            depth as int,
                            options.indent as int,
                            join_prims_spec(
                                row_fill(obj_model(entries@), header_m),
                                options.delimiter,
                            ),
                        ),
                    ]);
                    assert(lines_before + (seq![
                        indented_spec(
                            depth as int,
                            options.indent as int,
                            join_prims_spec(
                                row_fill(obj_model(entries@), header_m),
                                options.delimiter,
                            ),
                        ),
                    ] + tab_row_lines(
                        rows_m.skip(i + 1),
                        header_m,
                        depth as int,
                        options.indent as int,
                        options.delimiter,
                    )) =~= (lines_before + seq![
                        indented_spec(
                            depth as int,
                            options.indent as int,
                            join_prims_spec(
                                row_fill(obj_model(entries@), header_m),
                                options.delimiter,
                            ),
                        ),
                    ]) + tab_row_lines(
                        rows_m.skip(i + 1),
                        header_m,
                        depth as int,
                        options.indent as int,
                        options.delimiter,
                    ));
                }
            },
            _ => {},
        }
        i += 1;
    }
    proof {
        assert(rows_m.skip(rows_m.len() as int) =~= Seq::<ValueModel>::empty());
        assert(out@.map_values(|s: String| s@) + Seq::<Seq<char>>::empty() =~= out@.map_values(
            |s: String| s@,
        ));
    }
}

/// Write a mixed array as a header plus one `- ` item per element.
#[verifier::loop_isolation(false)]
fn encode_mixed_array_as_list_items_lines(
    key: Option<&str>,
    items: &JsonArray,
    depth: usize,
    options: &ResolvedEncodeOptions,
    out: &mut Vec<String>,
)
    ensures
        final(out)@.len() >= old(out)@.len() + 1 + items@.len(),
        final(out)@.take(old(out)@.len() as int) == old(out)@,
        final(out)@[old(out)@.len() as int]@ == indented_spec(
            depth as int,
            options.indent as int,
            header_line_spec(
                items@.len() as int,
                match key {
                    Option::Some(k) => Some(k@),
                    Option::None => None,
                },
                None,
                options.delimiter,
            ),
        ),
    decreases vm_items_height(arr_model(items@)), 5int,
{
    let ghost n0 = out@.len();
    let header = format_header(items.len(), key, None, options.delimiter);
    out.push(indented_line(depth, header.as_str(), options.indent));
    let ghost head_line = out@[n0 as int];
    proof {
        assert(out@.take(n0 as int) =~= old(out)@);
    }

    let next_depth: usize = if depth < usize::MAX {
        depth + 1
    } else {
        depth
    };
    let mut i: usize = 0;
    while i < items.len()
        invariant
            0 <= i <= items@.len(),
            out@.len() >= n0 + 1 + i,
            out@.take(n0 as int) == old(out)@,
            out@[n0 as int] == head_line,
        decreases items.len() - i,
    {
        proof {
            lemma_arr_model(items@);
            lemma_items_height(arr_model(items@));
            assert(arr_model(items@)[i as int] == value_model(items@[i as int]));
        }
        let ghost n_mid = out@.len();
        encode_list_item_value_lines(&items[i], next_depth, options, out);
        proof {
            assert(out@.take(n0 as int) =~= out@.take(n_mid as int).take(n0 as int));
            assert(out@[n0 as int] == out@.take(n_mid as int)[n0 as int]);
        }
        i += 1;
    }
}

/// Write one object element as a list item: its first entry rides on the
/// `- ` line, the rest follow one level deeper.
#[verifier::rlimit(100)]
#[verifier::loop_isolation(false)]
fn encode_object_as_list_item_lines(
    obj: &JsonObject,
    depth: usize,
    options: &ResolvedEncodeOptions,
    out: &mut Vec<String>,
)
    ensures
        final(out)@.len() > old(out)@.len(),
        final(out)@.take(old(out)@.len() as int) == old(out)@,
        ({
            let n = old(out)@.len() as int;
            obj@.len() == 0 ==> final(out)@.len() == n + 1 && final(out)@[n]@ == indented_spec(
                depth as int,
                options.indent as int,
                seq!['-'],
            )
        }),
    decreases vm_entries_height(obj_model(obj@)), 3int,
{
    let ghost n0 = out@.len();
    if obj.len() == 0 {
        out.push(indented_line(depth, "-", options.indent));
        proof {
            reveal_strlit("-");
            assert(out@.take(n0 as int) =~= old(out)@);
            assert(out@[n0 as int]@ =~= indented_spec(
                depth as int,
                options.indent as int,
                seq!['-'],
            ));
        }
        return ;
    }

    proof {
        lemma_obj_model(obj@);
        lemma_entries_height(obj_model(obj@));
        assert(obj_model(obj@)[0] == (obj@[0].0@, value_model(obj@[0].1)));
    }
    let first_key = obj[0].0.clone();
    let first_value = &obj[0].1;
    let next_depth: usize = if depth < usize::MAX {
        depth + 1
    } else {
        depth
    };
    let next_depth2: usize = if next_depth < usize::MAX {
        next_depth + 1
    } else {
        next_depth
    };

    let mut handled_tabular = false;
    match first_value {
        JsonValue::Array(items) => {
            if crate::value::is_array_of_objects(items) {
                match extract_tabular_header(items) {
                    Option::Some(header) => {
                        let formatted = format_header(
                            items.len(),
                            Some(first_key.as_str()),
                            Some(&header),
                            options.delimiter,
                        );
                        out.push(indented_list_item(depth, formatted.as_str(), options.indent));
                        proof {
                            assert(out@.take(n0 as int) =~= old(out)@);
                        }
                        let ghost n1 = out@.len();
                        write_tabular_rows_lines(items, &header, next_depth2, options, out);
                        proof {
                            assert(out@.take(n0 as int) =~= out@.take(n1 as int).take(n0 as int));
                        }
                        if obj.len() > 1 {
                            let ghost n2 = out@.len();
                            encode_rest_entries(obj, next_depth, options, out);
                            proof {
                                assert(out@.take(n0 as int) =~= out@.take(n2 as int).take(
                                    n0 as int,
                                ));
                            }
                        }
                        handled_tabular = true;
                    },
                    Option::None => {},
                }
            }
        },
        _ => {},
    }
    if handled_tabular {
        return ;
    }

    let encoded_key = encode_key(first_key.as_str());

    match first_value {
        JsonValue::Primitive(primitive) => {
            let encoded = encode_primitive(primitive, options.delimiter);
            let mut line = encoded_key;
            line.append(": ");
            line.append(encoded.as_str());
            out.push(indented_list_item(depth, line.as_str(), options.indent));
            proof {
                assert(out@.take(n0 as int) =~= old(out)@);
            }
        },
        JsonValue::Array(items) => {
            proof {
                assert(decreases_to!(obj@[0].1 => *items));
                lemma_arr_model(items@);
                lemma_items_height(arr_model(items@));
                assert(vm_items_height(arr_model(items@)) < vm_height(value_model(obj@[0].1)));
            }
            if items.len() == 0 {
                let header = format_header(0, None, None, options.delimiter);
                let mut line = encoded_key;
                line.append(header.as_str());
                out.push(indented_list_item(depth, line.as_str(), options.indent));
            } else if crate::value::is_array_of_primitives(items) {
                let inline = encode_inline_array_line(items, options.delimiter, None);
                let mut line = encoded_key;
                line.append(inline.as_str());
                out.push(indented_list_item(depth, line.as_str(), options.indent));
            } else {
                let header = format_header(items.len(), None, None, options.delimiter);
                let mut line = encoded_key;
                line.append(header.as_str());
                out.push(indented_list_item(depth, line.as_str(), options.indent));
                let mut k: usize = 0;
                while k < items.len()
                    invariant
                        0 <= k <= items@.len(),
                        out@.len() > n0,
                        out@.take(n0 as int) == old(out)@,
                    decreases items.len() - k,
                {
                    proof {
                        lemma_arr_model(items@);
                        lemma_items_height(arr_model(items@));
                        assert(arr_model(items@)[k as int] == value_model(items@[k as int]));
                    }
                    let ghost n_mid = out@.len();
                    encode_list_item_value_lines(&items[k], next_depth2, options, out);
                    proof {
                        assert(out@.take(n0 as int) =~= out@.take(n_mid as int).take(n0 as int));
                    }
                    k += 1;
                }
            }
            proof {
                assert(out@.take(n0 as int) =~= old(out)@);
            }
        },
        JsonValue::Object(entries) => {
            let mut line = encoded_key;
            line.append(":");
            out.push(indented_list_item(depth, line.as_str(), options.indent));
            proof {
                assert(out@.take(n0 as int) =~= old(out)@);
            }
            if entries.len() > 0 {
                proof {
                    lemma_obj_model(entries@);
                    assert(vm_entries_height(obj_model(entries@)) < vm_height(
                        value_model(obj@[0].1),
                    ));
                }
                let ghost n1 = out@.len();
                encode_object_lines(entries, next_depth2, options, None, None, None, out);
                proof {
                    assert(out@.take(n0 as int) =~= out@.take(n1 as int).take(n0 as int));
                }
            }
        },
    }

    if obj.len() > 1 {
        let ghost n3 = out@.len();
        encode_rest_entries(obj, next_depth, options, out);
        proof {
            assert(out@.take(n0 as int) =~= out@.take(n3 as int).take(n0 as int));
        }
    }
}

/// Write the entries after the first, one level deeper than the `- ` line.
#[verifier::loop_isolation(false)]
fn encode_rest_entries(
    obj: &JsonObject,
    depth: usize,
    options: &ResolvedEncodeOptions,
    out: &mut Vec<String>,
)
    requires
        obj@.len() >= 1,
    ensures
        final(out)@.len() >= old(out)@.len() + obj@.len() - 1,
        final(out)@.take(old(out)@.len() as int) == old(out)@,
    decreases vm_entries_height(obj_model(obj@)), 2int,
{
    let ghost n0 = out@.len();
    let mut rest: Vec<(String, JsonValue)> = Vec::new();
    let mut i: usize = 1;
    while i < obj.len()
        invariant
            1 <= i <= obj@.len(),
            rest@.len() == i - 1,
            forall|k: int|
                0 <= k < i - 1 ==> (#[trigger] rest@[k]).0@ == obj@[k + 1].0@ && value_model(
                    rest@[k].1,
                ) == value_model(obj@[k + 1].1),
        decreases obj.len() - i,
    {
        let k = obj[i].0.clone();
        let v = clone_value(&obj[i].1);
        rest.push((k, v));
        i += 1;
    }
    proof {
        lemma_obj_model(rest@);
        lemma_obj_model(obj@);
        lemma_entries_height_model(obj_model(rest@), obj_model(obj@).skip(1));
        lemma_entries_height_skip(obj_model(obj@), 1);
        assert(obj_model(rest@) =~= obj_model(obj@).skip(1));
    }
    encode_object_lines(&rest, depth, options, None, None, None, out);
}

/// Equal entry models have equal heights.
proof fn lemma_entries_height_model(
    a: Seq<(Seq<char>, ValueModel)>,
    b: Seq<(Seq<char>, ValueModel)>,
)
    ensures
        a == b ==> vm_entries_height(a) == vm_entries_height(b),
{
}

/// Write one array element as a list item: a primitive inline, a primitive
/// array inline, another array as a nested header with items, an object
/// with its first entry on the marker line.
#[verifier::loop_isolation(false)]
fn encode_list_item_value_lines(
    value: &JsonValue,
    depth: usize,
    options: &ResolvedEncodeOptions,
    out: &mut Vec<String>,
)
    ensures
        final(out)@.len() > old(out)@.len(),
        final(out)@.take(old(out)@.len() as int) == old(out)@,
        ({
            let n = old(out)@.len() as int;
            match value_model(*value) {
                ValueModel::Prim(p) => final(out)@.len() == n + 1 && final(out)@[n]@
                    == list_item_spec(
                    depth as int,
                    options.indent as int,
                    encode_prim_spec(p, options.delimiter),
                ),
                _ => true,
            }
        }),
    decreases vm_height(value_model(*value)), 4int,
{
    let ghost n0 = out@.len();
    match value {
        JsonValue::Primitive(primitive) => {
            let encoded = encode_primitive(primitive, options.delimiter);
            out.push(indented_list_item(depth, encoded.as_str(), options.indent));
            proof {
                assert(out@.take(n0 as int) =~= old(out)@);
            }
        },
        JsonValue::Array(items) => {
            proof {
                assert(decreases_to!(*value => *items));
                lemma_arr_model(items@);
                assert(vm_items_height(arr_model(items@)) < vm_height(value_model(*value)));
            }
            if crate::value::is_array_of_primitives(items) {
                let line = encode_inline_array_line(items, options.delimiter, None);
                out.push(indented_list_item(depth, line.as_str(), options.indent));
                proof {
                    assert(out@.take(n0 as int) =~= old(out)@);
                }
            } else {
                let header = format_header(items.len(), None, None, options.delimiter);
                out.push(indented_list_item(depth, header.as_str(), options.indent));
                proof {
                    assert(out@.take(n0 as int) =~= old(out)@);
                }
                let next_depth: usize = if depth < usize::MAX {
                    depth + 1
                } else {
                    depth
                };
                let mut k: usize = 0;
                while k < items.len()
                    invariant
                        0 <= k <= items@.len(),
                        out@.len() > n0,
                        out@.take(n0 as int) == old(out)@,
                    decreases items.len() - k,
                {
                    proof {
                        lemma_arr_model(items@);
                        lemma_items_height(arr_model(items@));
                        assert(arr_model(items@)[k as int] == value_model(items@[k as int]));
                    }
                    let ghost n_mid = out@.len();
                    encode_list_item_value_lines(&items[k], next_depth, options, out);
                    proof {
                        assert(out@.take(n0 as int) =~= out@.take(n_mid as int).take(n0 as int));
                    }
                    k += 1;
                }
            }
        },
        JsonValue::Object(entries) => {
            proof {
                assert(decreases_to!(*value => *entries));
                lemma_obj_model(entries@);
                assert(vm_entries_height(obj_model(entries@)) < vm_height(value_model(*value)));
            }
            encode_object_as_list_item_lines(entries, depth, options, out);
        },
    }
}

} // verus!
