//! The text back-end for a whole layout: the source row, a map for each
//! layer, and the pooled overrides.

use super::kanata::{
    action_to_kanata, has_kanata_name, kanata_text, key_name, key_to_kanata, named,
};
use super::order::ordered;
use crate::error::Error;
use crate::keys::Key;
use crate::layout::action::{Action, ActionV};
use crate::layout::assemble::{Layout, LayoutV};
use crate::layout::layer::{has_name, overrides_view, slots_view, Layer, LayerV, Override, OverrideV};
use crate::layout::layers::{find_layer, layer_of, layers_view};
use crate::text::{begins_form, is_form, joined, push_joined, same, texts};
use vstd::prelude::*;
use vstd::string::StringExecFns;

verus! {

/// The remapper's names of the keys from position `i` on; an error where a
/// key has none.
pub open spec fn key_names(keys: Seq<Key>, i: int) -> Result<Seq<Seq<char>>, Error>
    decreases keys.len() - i,
{
    if i < 0 || i >= keys.len() {
        Ok(Seq::empty())
    } else if !named(keys[i]) {
        Err(Error::Unsupported)
    } else {
        match key_names(keys, i + 1) {
            Err(e) => Err(e),
            Ok(rest) => Ok(seq![key_name(keys[i])] + rest),
        }
    }
}

/// The form that lists the source row.
pub open spec fn source_form(source: Seq<Key>) -> Result<Seq<char>, Error> {
    match key_names(source, 0) {
        Err(e) => Err(e),
        Ok(names) => Ok("("@ + joined(seq!["defsrc"@] + names, " "@) + ")"@),
    }
}

/// The lines of the bindings from slot `i` on: one for each bound slot whose
/// action is written otherwise than the name of its key.
pub open spec fn binding_lines(keys: Seq<Option<ActionV>>, i: int, source: Seq<Key>) -> Result<
    Seq<Seq<char>>,
    Error,
>
    decreases keys.len() - i,
{
    if i < 0 || i >= keys.len() {
        Ok(Seq::empty())
    } else {
        match keys[i] {
            None => binding_lines(keys, i + 1, source),
            Some(a) => if i >= source.len() {
                Err(Error::MissingKey)
            } else if !named(source[i]) {
                Err(Error::Unsupported)
            } else {
                match kanata_text(a) {
                    Err(e) => Err(e),
                    Ok(t) => match binding_lines(keys, i + 1, source) {
                        Err(e) => Err(e),
                        Ok(rest) => if t == key_name(source[i]) {
                            Ok(rest)
                        } else {
                            Ok(seq!["\t"@ + key_name(source[i]) + " "@ + t] + rest)
                        },
                    },
                }
            },
        }
    }
}

/// The form that maps a layer.
pub open spec fn layer_form(l: LayerV, source: Seq<Key>) -> Result<Seq<char>, Error> {
    match binding_lines(l.keys, 0, source) {
        Err(e) => Err(e),
        Ok(lines) => Ok("(deflayermap ("@ + l.name + ")\n"@ + joined(lines, "\n"@) + "\n)"@),
    }
}

/// The text of an override: its modifiers and key in parentheses, then its
/// action as a form.
pub open spec fn override_text(o: OverrideV) -> Result<Seq<char>, Error> {
    match kanata_text(o.action) {
        Err(e) => Err(e),
        Ok(t) => match key_names(o.mods, 0) {
            Err(e) => Err(e),
            Ok(mods) => if !named(o.key) {
                Err(Error::Unsupported)
            } else {
                Ok(
                    "("@ + joined(mods, " "@) + " "@ + key_name(o.key) + ") "@ + (if is_form(t) {
                        t
                    } else {
                        "("@ + t + ")"@
                    }),
                )
            },
        },
    }
}

/// A pooled override: its text, and the layers on which it is active.
pub struct Record {
    pub text: String,
    pub active: Vec<String>,
}

/// The value of a [`Record`].
pub struct RecordV {
    pub text: Seq<char>,
    pub active: Seq<Seq<char>>,
}

impl View for Record {
    type V = RecordV;

    open spec fn view(&self) -> RecordV {
        RecordV { text: self.text@, active: texts(self.active@) }
    }
}

/// The values of a row of records.
pub open spec fn records_view(v: Seq<Record>) -> Seq<RecordV> {
    Seq::new(v.len(), |i: int| v[i]@)
}

/// The first position from `i` on of the record with the text `text`.
pub open spec fn record_at(records: Seq<RecordV>, text: Seq<char>, i: int) -> Option<int>
    decreases records.len() - i,
{
    if i < 0 || i >= records.len() {
        None
    } else if records[i].text == text {
        Some(i)
    } else {
        record_at(records, text, i + 1)
    }
}

/// The records with the override `text` active on `layer`: the layer added
/// to the record of that text, or a record of its own.
pub open spec fn record_added(records: Seq<RecordV>, text: Seq<char>, layer: Seq<char>) -> Seq<
    RecordV,
> {
    match record_at(records, text, 0) {
        Some(p) => if records[p].active.contains(layer) {
            records
        } else {
            records.update(p, RecordV { text: text, active: records[p].active.push(layer) })
        },
        None => records.push(RecordV { text: text, active: seq![layer] }),
    }
}

/// The records after the overrides of a layer from position `k` on.
pub open spec fn records_from(records: Seq<RecordV>, layer: Seq<char>, os: Seq<OverrideV>, k: int)
    -> Result<Seq<RecordV>, Error>
    decreases os.len() - k,
{
    if k < 0 || k >= os.len() {
        Ok(records)
    } else {
        match override_text(os[k]) {
            Err(e) => Err(e),
            Ok(t) => records_from(record_added(records, t, layer), layer, os, k + 1),
        }
    }
}

/// The forms written so far and the overrides pooled so far.
pub struct Written {
    pub forms: Seq<Seq<char>>,
    pub records: Seq<RecordV>,
}

/// What writing the layers named from position `li` on adds.
pub open spec fn layers_written(
    layers: Seq<LayerV>,
    names: Seq<Seq<char>>,
    li: int,
    source: Seq<Key>,
    w: Written,
) -> Result<Written, Error>
    decreases names.len() - li,
{
    if li < 0 || li >= names.len() {
        Ok(w)
    } else {
        match layer_of(layers, names[li]) {
            None => Err(Error::MissingLayer),
            Some(l) => match layer_form(l, source) {
                Err(e) => Err(e),
                Ok(form) => match records_from(w.records, l.name, l.overrides, 0) {
                    Err(e) => Err(e),
                    Ok(records) => layers_written(
                        layers,
                        names,
                        li + 1,
                        source,
                        Written { forms: w.forms.push(form), records: records },
                    ),
                },
            },
        }
    }
}

/// The names of the layers from position `j` on that are not in `active`.
pub open spec fn inactive(layers: Seq<LayerV>, j: int, active: Seq<Seq<char>>) -> Seq<Seq<char>>
    decreases layers.len() - j,
{
    if j < 0 || j >= layers.len() {
        Seq::empty()
    } else if active.contains(layers[j].name) {
        inactive(layers, j + 1, active)
    } else {
        seq![layers[j].name] + inactive(layers, j + 1, active)
    }
}

/// The lines of the records from position `i` on: each with the layers on
/// which it is not active.
pub open spec fn record_lines(records: Seq<RecordV>, i: int, layers: Seq<LayerV>) -> Seq<Seq<char>>
    decreases records.len() - i,
{
    if i < 0 || i >= records.len() {
        Seq::empty()
    } else {
        seq![
            "\t"@ + records[i].text + " () ("@ + joined(
                inactive(layers, 0, records[i].active),
                " "@,
            ) + ")"@,
        ] + record_lines(records, i + 1, layers)
    }
}

/// The text of a layout in the remapper's dialect: the source row, a map
/// for each layer in the order of the back-ends, and, where there are
/// overrides, the pooled overrides; an empty line between the forms.
pub open spec fn kanata_of(layout: LayoutV) -> Result<Seq<char>, Error> {
    match source_form(layout.keyboard.source) {
        Err(e) => Err(e),
        Ok(first) => match ordered(layout.layers) {
            Err(e) => Err(e),
            Ok(names) => match layers_written(
                layout.layers,
                names,
                0,
                layout.keyboard.source,
                Written { forms: seq![first], records: Seq::empty() },
            ) {
                Err(e) => Err(e),
                Ok(w) => if w.records.len() > 0 {
                    Ok(
                        joined(
                            w.forms.push(
                                "(defoverridesv2 \n"@ + joined(
                                    record_lines(w.records, 0, layout.layers),
                                    "\n"@,
                                ) + "\n)"@,
                            ),
                            "\n\n"@,
                        ),
                    )
                } else {
                    Ok(joined(w.forms, "\n\n"@))
                },
            },
        }
    }
}

#[verifier::loop_isolation(false)]
fn names_of_keys(keys: &Vec<Key>) -> (r: Result<Vec<String>, Error>)
    ensures
        match r {
            Ok(ns) => key_names(keys@, 0) == Ok::<Seq<Seq<char>>, Error>(texts(ns@)),
            Err(e) => key_names(keys@, 0) == Err::<Seq<Seq<char>>, Error>(e),
        },
{
    let mut out: Vec<String> = Vec::new();
    let mut i: usize = 0;
    assert(texts(out@) =~= Seq::<Seq<char>>::empty());
    while i < keys.len()
        invariant
            i <= keys.len(),
            key_names(keys@, 0) == (match key_names(keys@, i as int) {
                Ok(rest) => Ok::<Seq<Seq<char>>, Error>(texts(out@) + rest),
                Err(e) => Err(e),
            }),
        decreases keys.len() - i,
    {
        if !has_kanata_name(&keys[i]) {
            return Err(Error::Unsupported);
        }
        let name = key_to_kanata(&keys[i]);
        let ghost before = texts(out@);
        proof {
            match key_names(keys@, i + 1) {
                Ok(rest) => {
                    assert(before + (seq![name@] + rest) =~= before.push(name@) + rest);
                },
                Err(_) => {},
            }
        }
        out.push(name);
        assert(texts(out@) =~= before.push(name@));
        i = i + 1;
    }
    assert(texts(out@) + Seq::<Seq<char>>::empty() =~= texts(out@));
    Ok(out)
}

fn write_source(source: &Vec<Key>) -> (r: Result<String, Error>)
    ensures
        match r {
            Ok(s) => source_form(source@) == Ok::<Seq<char>, Error>(s@),
            Err(e) => source_form(source@) == Err::<Seq<char>, Error>(e),
        },
{
    let names = match names_of_keys(source) {
        Ok(n) => n,
        Err(e) => {
            return Err(e);
        },
    };
    let mut parts: Vec<String> = Vec::new();
    parts.push(String::from_str("defsrc"));
    let ghost head = texts(parts@);
    let ghost tail = texts(names@);
    let mut names = names;
    parts.append(&mut names);
    assert(texts(parts@) =~= seq!["defsrc"@] + tail);
    let mut out = String::from_str("(");
    push_joined(&mut out, &parts, " ");
    out.append(")");
    Ok(out)
}

#[verifier::loop_isolation(false)]
fn write_bindings(keys: &Vec<Option<Action>>, source: &Vec<Key>) -> (r: Result<Vec<String>, Error>)
    ensures
        match r {
            Ok(ls) => binding_lines(slots_view(keys@), 0, source@) == Ok::<Seq<Seq<char>>, Error>(
                texts(ls@),
            ),
            Err(e) => binding_lines(slots_view(keys@), 0, source@) == Err::<Seq<Seq<char>>, Error>(
                e,
            ),
        },
{
    let ghost kv = slots_view(keys@);
    let mut out: Vec<String> = Vec::new();
    let mut i: usize = 0;
    assert(texts(out@) =~= Seq::<Seq<char>>::empty());
    while i < keys.len()
        invariant
            i <= keys.len(),
            binding_lines(kv, 0, source@) == (match binding_lines(kv, i as int, source@) {
                Ok(rest) => Ok::<Seq<Seq<char>>, Error>(texts(out@) + rest),
                Err(e) => Err(e),
            }),
        decreases keys.len() - i,
    {
        match &keys[i] {
            None => {},
            Some(a) => {
                if i >= source.len() {
                    return Err(Error::MissingKey);
                }
                if !has_kanata_name(&source[i]) {
                    return Err(Error::Unsupported);
                }
                let key = key_to_kanata(&source[i]);
                let t = match action_to_kanata(a) {
                    Ok(t) => t,
                    Err(e) => {
                        return Err(e);
                    },
                };
                if !same(t.as_str(), key.as_str()) {
                    let mut line = String::from_str("\t");
                    line.append(key.as_str());
                    line.append(" ");
                    line.append(t.as_str());
                    let ghost before = texts(out@);
                    proof {
                        match binding_lines(kv, i + 1, source@) {
                            Ok(rest) => {
                                assert(before + (seq![line@] + rest) =~= before.push(line@) + rest);
                            },
                            Err(_) => {},
                        }
                    }
                    out.push(line);
                    assert(texts(out@) =~= before.push(line@));
                }
            },
        }
        i = i + 1;
    }
    assert(texts(out@) + Seq::<Seq<char>>::empty() =~= texts(out@));
    Ok(out)
}

fn write_layer(l: &Layer, source: &Vec<Key>) -> (r: Result<String, Error>)
    ensures
        match r {
            Ok(s) => layer_form(l@, source@) == Ok::<Seq<char>, Error>(s@),
            Err(e) => layer_form(l@, source@) == Err::<Seq<char>, Error>(e),
        },
{
    let lines = match write_bindings(&l.keys, source) {
        Ok(ls) => ls,
        Err(e) => {
            return Err(e);
        },
    };
    let mut out = String::from_str("(deflayermap (");
    out.append(l.name.as_str());
    out.append(")\n");
    push_joined(&mut out, &lines, "\n");
    out.append("\n)");
    Ok(out)
}

fn write_override(o: &Override) -> (r: Result<String, Error>)
    ensures
        match r {
            Ok(s) => override_text(o@) == Ok::<Seq<char>, Error>(s@),
            Err(e) => override_text(o@) == Err::<Seq<char>, Error>(e),
        },
{
    let t = match action_to_kanata(&o.action) {
        Ok(t) => t,
        Err(e) => {
            return Err(e);
        },
    };
    let mods = match names_of_keys(&o.mods) {
        Ok(m) => m,
        Err(e) => {
            return Err(e);
        },
    };
    if !has_kanata_name(&o.key) {
        return Err(Error::Unsupported);
    }
    let mut out = String::from_str("(");
    push_joined(&mut out, &mods, " ");
    out.append(" ");
    out.append(key_to_kanata(&o.key).as_str());
    out.append(") ");
    if begins_form(t.as_str()) {
        out.append(t.as_str());
        assert(out@ =~= "("@ + joined(texts(mods@), " "@) + " "@ + key_name(o@.key) + ") "@ + t@);
    } else {
        out.append("(");
        out.append(t.as_str());
        out.append(")");
        assert(out@ =~= "("@ + joined(texts(mods@), " "@) + " "@ + key_name(o@.key) + ") "@ + ("("@
            + t@ + ")"@));
    }
    Ok(out)
}

fn clone_names(v: &Vec<String>) -> (r: Vec<String>)
    ensures
        texts(r@) == texts(v@),
{
    let mut out: Vec<String> = Vec::new();
    let mut k: usize = 0;
    while k < v.len()
        invariant
            k <= v.len(),
            texts(out@) =~= texts(v@).take(k as int),
        decreases v.len() - k,
    {
        let ghost before = texts(out@);
        let item = v[k].clone();
        out.push(item);
        assert(texts(out@) =~= before.push(item@));
        k = k + 1;
    }
    assert(texts(v@).take(k as int) =~= texts(v@));
    out
}

fn find_record(records: &Vec<Record>, text: &str) -> (r: Option<usize>)
    ensures
        match r {
            Some(p) => record_at(records_view(records@), text@, 0) == Some(p as int) && p
                < records.len(),
            None => record_at(records_view(records@), text@, 0).is_none(),
        },
{
    let ghost rv = records_view(records@);
    let mut i: usize = 0;
    while i < records.len()
        invariant
            i <= records.len(),
            rv == records_view(records@),
            record_at(rv, text@, 0) == record_at(rv, text@, i as int),
        decreases records.len() - i,
    {
        if same(records[i].text.as_str(), text) {
            return Some(i);
        }
        i = i + 1;
    }
    None
}

fn add_record(records: &mut Vec<Record>, text: String, layer: &str)
    ensures
        records_view(final(records)@) == record_added(records_view(old(records)@), text@, layer@),
{
    let ghost before = records_view(records@);
    match find_record(records, text.as_str()) {
        Some(p) => {
            if !has_name(&records[p].active, layer) {
                let mut active = clone_names(&records[p].active);
                let ghost ab = texts(active@);
                let owned = String::from_str(layer);
                active.push(owned);
                assert(texts(active@) =~= ab.push(layer@));
                let ghost tv = text@;
                let rec = Record { text: text, active: active };
                records.set(p, rec);
                assert(records_view(records@) =~= before.update(
                    p as int,
                    RecordV { text: tv, active: before[p as int].active.push(layer@) },
                ));
            }
        },
        None => {
            let mut active: Vec<String> = Vec::new();
            active.push(String::from_str(layer));
            assert(texts(active@) =~= seq![layer@]);
            let rec = Record { text: text, active: active };
            records.push(rec);
            assert(records_view(records@) =~= before.push(rec@));
        },
    }
}

#[verifier::loop_isolation(false)]
fn pool_layer(records: &mut Vec<Record>, l: &Layer) -> (r: Result<(), Error>)
    ensures
        match r {
            Ok(_) => records_from(
                records_view(old(records)@),
                l@.name,
                l@.overrides,
                0,
            ) == Ok::<Seq<RecordV>, Error>(records_view(final(records)@)),
            Err(e) => records_from(
                records_view(old(records)@),
                l@.name,
                l@.overrides,
                0,
            ) == Err::<Seq<RecordV>, Error>(e),
        },
{
    let ghost ov = overrides_view(l.overrides@);
    let ghost r0 = records_view(records@);
    let mut k: usize = 0;
    while k < l.overrides.len()
        invariant
            k <= l.overrides.len(),
            records_from(r0, l@.name, ov, 0) == records_from(
                records_view(records@),
                l@.name,
                ov,
                k as int,
            ),
        decreases l.overrides.len() - k,
    {
        assert(ov[k as int] == l.overrides@[k as int]@);
        let t = match write_override(&l.overrides[k]) {
            Ok(t) => t,
            Err(e) => {
                return Err(e);
            },
        };
        add_record(records, t, l.name.as_str());
        k = k + 1;
    }
    Ok(())
}

#[verifier::loop_isolation(false)]
fn inactive_layers(layers: &Vec<Layer>, active: &Vec<String>) -> (r: Vec<String>)
    ensures
        texts(r@) == inactive(layers_view(layers@), 0, texts(active@)),
{
    let ghost lv = layers_view(layers@);
    let ghost av = texts(active@);
    let mut out: Vec<String> = Vec::new();
    let mut j: usize = 0;
    assert(texts(out@) =~= Seq::<Seq<char>>::empty());
    while j < layers.len()
        invariant
            j <= layers.len(),
            texts(out@) + inactive(lv, j as int, av) == inactive(lv, 0, av),
        decreases layers.len() - j,
    {
        assert(lv[j as int] == layers@[j as int]@);
        if !has_name(active, layers[j].name.as_str()) {
            let ghost before = texts(out@);
            let name = layers[j].name.clone();
            out.push(name);
            assert(texts(out@) =~= before.push(name@));
            assert(before.push(name@) + inactive(lv, j + 1, av) =~= before + (seq![name@]
                + inactive(lv, j + 1, av)));
        }
        j = j + 1;
    }
    assert(texts(out@) + Seq::<Seq<char>>::empty() =~= texts(out@));
    out
}

#[verifier::loop_isolation(false)]
fn write_records(records: &Vec<Record>, layers: &Vec<Layer>) -> (r: Vec<String>)
    ensures
        texts(r@) == record_lines(records_view(records@), 0, layers_view(layers@)),
{
    let ghost rv = records_view(records@);
    let ghost lv = layers_view(layers@);
    let mut out: Vec<String> = Vec::new();
    let mut i: usize = 0;
    assert(texts(out@) =~= Seq::<Seq<char>>::empty());
    while i < records.len()
        invariant
            i <= records.len(),
            texts(out@) + record_lines(rv, i as int, lv) == record_lines(rv, 0, lv),
        decreases records.len() - i,
    {
        assert(rv[i as int] == records@[i as int]@);
        let names = inactive_layers(layers, &records[i].active);
        let mut line = String::from_str("\t");
        line.append(records[i].text.as_str());
        line.append(" () (");
        push_joined(&mut line, &names, " ");
        line.append(")");
        let ghost before = texts(out@);
        out.push(line);
        assert(texts(out@) =~= before.push(line@));
        assert(before.push(line@) + record_lines(rv, i + 1, lv) =~= before + (seq![line@]
            + record_lines(rv, i + 1, lv)));
        i = i + 1;
    }
    assert(texts(out@) + Seq::<Seq<char>>::empty() =~= texts(out@));
    out
}

impl Layout {
    /// The layout in the remapper's dialect.
    #[verifier::loop_isolation(false)]
    pub fn kanata(&self) -> (r: Result<String, Error>)
        ensures
            match r {
                Ok(s) => kanata_of(self@) == Ok::<Seq<char>, Error>(s@),
                Err(e) => kanata_of(self@) == Err::<Seq<char>, Error>(e),
            },
    {
        let first = match write_source(&self.keyboard.source) {
            Ok(s) => s,
            Err(e) => {
                return Err(e);
            },
        };
        let names = match self.sorted_layers() {
            Ok(n) => n,
            Err(e) => {
                return Err(e);
            },
        };
        let ghost lv = self@.layers;
        let ghost ns = texts(names@);
        let ghost w0 = Written { forms: seq![first@], records: Seq::empty() };
        let mut lines: Vec<String> = Vec::new();
        lines.push(first);
        assert(texts(lines@) =~= w0.forms);
        let mut records: Vec<Record> = Vec::new();
        assert(records_view(records@) =~= w0.records);
        let mut li: usize = 0;
        while li < names.len()
            invariant
                li <= names.len(),
                layers_written(lv, ns, 0, self@.keyboard.source, w0) == layers_written(
                    lv,
                    ns,
                    li as int,
                    self@.keyboard.source,
                    Written { forms: texts(lines@), records: records_view(records@) },
                ),
            decreases names.len() - li,
        {
            assert(ns[li as int] == names@[li as int]@);
            let p = match find_layer(&self.layers, names[li].as_str()) {
                Some(p) => p,
                None => {
                    return Err(Error::MissingLayer);
                },
            };
            let l = &self.layers[p];
            assert(lv[p as int] == l@);
            let form = match write_layer(l, &self.keyboard.source) {
                Ok(f) => f,
                Err(e) => {
                    return Err(e);
                },
            };
            match pool_layer(&mut records, l) {
                Ok(_) => {},
                Err(e) => {
                    return Err(e);
                },
            }
            let ghost before = texts(lines@);
            lines.push(form);
            assert(texts(lines@) =~= before.push(form@));
            li = li + 1;
        }
        if records.len() > 0 {
            let rows = write_records(&records, &self.layers);
            let mut block = String::from_str("(defoverridesv2 \n");
            push_joined(&mut block, &rows, "\n");
            block.append("\n)");
            let ghost before = texts(lines@);
            lines.push(block);
            assert(texts(lines@) =~= before.push(block@));
        }
        let mut out = String::new();
        push_joined(&mut out, &lines, "\n\n");
        assert(Seq::<char>::empty() + joined(texts(lines@), "\n\n"@) =~= joined(
            texts(lines@),
            "\n\n"@,
        ));
        Ok(out)
    }
}

/// Every key of a row that has names is named.
pub proof fn names_mean_named(keys: Seq<Key>, i: int, k: int)
    requires
        0 <= i <= k < keys.len(),
        key_names(keys, i) is Ok,
    ensures
        named(keys[k]),
    decreases keys.len() - i,
{
    if i < k {
        names_mean_named(keys, i + 1, k);
    }
}

/// Slots that tap their own keys give no binding line.
pub proof fn own_taps_give_no_line(keys: Seq<Option<ActionV>>, source: Seq<Key>, i: int)
    requires
        0 <= i,
        crate::layout::layer::taps_own_keys(keys, source),
        key_names(source, 0) is Ok,
    ensures
        binding_lines(keys, i, source) == Ok::<Seq<Seq<char>>, Error>(Seq::empty()),
    decreases keys.len() - i,
{
    if i < keys.len() {
        own_taps_give_no_line(keys, source, i + 1);
        names_mean_named(source, 0, i);
        assert(keys[i] == Some(ActionV::Tap(source[i])));
    }
}

/// The text of a layout of one layer in which every slot taps its own key
/// and that has no overrides: the source row, then a map of the layer
/// without a binding, and no overrides form.
pub proof fn text_of_a_plain_layer(layout: LayoutV)
    requires
        layout.layers.len() == 1,
        crate::layout::layer::taps_own_keys(layout.layers[0].keys, layout.keyboard.source),
        layout.layers[0].overrides.len() == 0,
        key_names(layout.keyboard.source, 0) is Ok,
    ensures
        kanata_of(layout) == Ok::<Seq<char>, Error>(
            "("@ + joined(seq!["defsrc"@] + key_names(layout.keyboard.source, 0)->Ok_0, " "@)
                + ")"@ + "\n\n"@ + ("(deflayermap ("@ + layout.layers[0].name + ")\n"@
                + Seq::<char>::empty() + "\n)"@),
        ),
{
    let l = layout.layers[0];
    let source = layout.keyboard.source;
    crate::layout::layer::own_taps_hold_nothing(l.keys, source, 0);
    assert(crate::layout::layer::deps_of(l) == Seq::<Seq<char>>::empty());
    super::order::one_layer_is_its_order(layout.layers);
    own_taps_give_no_line(l.keys, source, 0);
    let first = source_form(source)->Ok_0;
    let names = seq![l.name];
    let w0 = Written { forms: seq![first], records: Seq::empty() };
    assert(crate::layout::layers::layer_at(layout.layers, l.name, 0) == Some(0int));
    assert(layer_of(layout.layers, names[0]) == Some(l));
    let form = layer_form(l, source)->Ok_0;
    assert(joined(Seq::<Seq<char>>::empty(), "\n"@) == Seq::<char>::empty());
    assert(records_from(w0.records, l.name, l.overrides, 0) == Ok::<Seq<RecordV>, Error>(
        w0.records,
    ));
    let w1 = Written { forms: w0.forms.push(form), records: w0.records };
    assert(layers_written(layout.layers, names, 1, source, w1) == Ok::<Written, Error>(w1));
    assert(layers_written(layout.layers, names, 0, source, w0) == Ok::<Written, Error>(w1));
    let forms = w1.forms;
    assert(forms.drop_last() =~= seq![first]);
    assert(forms.last() == form);
    assert(joined(seq![first], "\n\n"@) == first);
    assert(joined(forms, "\n\n"@) == first + "\n\n"@ + form);
}

} // verus!
