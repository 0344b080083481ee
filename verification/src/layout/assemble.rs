//! The layout assembler: reads the top-level forms of a source in order and
//! builds the layers that they define.

use super::action::{
    action_of, atom_action, table_view, tap_keys, taps, Action, ActionV, Aliases,
};
use super::layer::{
    clone_overrides, clone_slots, header_of, map_slots, overlay, overrides_view,
    row_slots, slot, slot_view, slots_view, Header, Keymap, Layer, LayerV, Override, OverrideV,
};
use super::layers::{find_layer, insert_layer, layer_at, layer_of, layers_view, with_layer};
use super::prepare::{prepare, prepared, unicode_used, uses_unicode};
use super::preprocess::{preprocess, preprocessed};
use super::unicode::{
    load_lang_chars, table_of, Keymaps, KeymapsV, UnicodeTable, UnicodeTableV,
};
use crate::error::Error;
use crate::keys::{has_key, Key};
use crate::parser::vial::{table_from, Vial};
use crate::parser::{
    keyboard_of, parse_keymap, parse_vial, source_row, tail_of, Keyboard, KeyboardV,
};
use crate::sexpr::{from_str, read, views as exprs, Expr, ExprV};
use crate::text::{lowercase_of, same, texts};
use vstd::prelude::*;
use vstd::string::StringExecFns;

verus! {

/// A layout: its layers, the keyboard they are for, and the action that
/// switches the input to each keymap.
#[derive(Debug)]
pub struct Layout {
    pub layers: Vec<Layer>,
    pub keyboard: Keyboard,
    pub keymaps: Keymaps,
}

/// The value of a [`Layout`].
pub struct LayoutV {
    pub layers: Seq<LayerV>,
    pub keyboard: KeyboardV,
    pub keymaps: KeymapsV,
}

impl View for Layout {
    type V = LayoutV;

    open spec fn view(&self) -> LayoutV {
        LayoutV { layers: layers_view(self.layers@), keyboard: self.keyboard@, keymaps: self.keymaps@ }
    }
}

/// What a source can refer to by name: the keyboard descriptors, each with
/// its name, and the Unicode table.
#[derive(Debug)]
pub struct Resources {
    pub keyboards: Vec<(String, String)>,
    pub unicode: String,
}

/// The value of [`Resources`].
pub struct ResourcesV {
    pub keyboards: Seq<(Seq<char>, Seq<char>)>,
    pub unicode: Seq<char>,
}

/// The values of a row of named descriptors.
pub open spec fn keyboards_view(v: Seq<(String, String)>) -> Seq<(Seq<char>, Seq<char>)> {
    Seq::new(v.len(), |i: int| (v[i].0@, v[i].1@))
}

impl View for Resources {
    type V = ResourcesV;

    open spec fn view(&self) -> ResourcesV {
        ResourcesV { keyboards: keyboards_view(self.keyboards@), unicode: self.unicode@ }
    }
}

/// A layout while its source is read: what has been built, and the aliases
/// defined so far.
pub struct Draft {
    pub layout: LayoutV,
    pub aliases: Seq<(Seq<char>, ActionV)>,
}

/// The descriptor of the keyboard `id`: the first of that name from
/// position `k` on.
pub open spec fn descriptor(keyboards: Seq<(Seq<char>, Seq<char>)>, id: Seq<char>, k: int) -> Option<
    Seq<char>,
>
    decreases keyboards.len() - k,
{
    if k < 0 || k >= keyboards.len() {
        None
    } else if keyboards[k].0 == id {
        Some(keyboards[k].1)
    } else {
        descriptor(keyboards, id, k + 1)
    }
}

/// The layer `src` of a source row.
pub open spec fn src_layer(source: Seq<Key>) -> LayerV {
    LayerV {
        name: "src"@,
        parent: Seq::empty(),
        keys: Seq::new(source.len(), |i: int| Some(ActionV::Tap(source[i]))),
        overrides: Seq::empty(),
        index: 0,
        keymap: Keymap::En,
    }
}

/// A layer that inherits everything from `p`, under a new name and index.
pub open spec fn child_of(p: LayerV, name: Seq<char>, index: usize) -> LayerV {
    LayerV {
        name: name,
        parent: p.name,
        keys: p.keys,
        overrides: p.overrides,
        index: index,
        keymap: p.keymap,
    }
}

/// The layer to edit under the name `name`: the layer of that name where
/// there is one; else a child of the layer `parent`; else a child of `src`.
pub open spec fn base_layer(layers: Seq<LayerV>, parent: Seq<char>, name: Seq<char>, index: usize)
    -> Result<LayerV, Error> {
    match layer_of(layers, name) {
        Some(l) => Ok(l),
        None => match layer_of(layers, parent) {
            Some(p) => Ok(child_of(p, name, index)),
            None => match layer_of(layers, "src"@) {
                Some(s) => Ok(child_of(s, name, index)),
                None => Err(Error::MissingLayer),
            },
        },
    }
}

/// The aliases that the pairs from position `k` on add to `acc`.
pub open spec fn aliases_from(params: Seq<ExprV>, k: int, acc: Seq<(Seq<char>, ActionV)>) -> Result<
    Seq<(Seq<char>, ActionV)>,
    Error,
>
    decreases params.len() - k,
{
    if k < 0 || k >= params.len() {
        Ok(acc)
    } else if k + 1 >= params.len() || !(params[k] is Atom) {
        Err(Error::Shape)
    } else {
        match action_of(params[k + 1]) {
            Err(e) => Err(e),
            Ok(a) => aliases_from(params, k + 2, acc.push((params[k]->Atom_0, a))),
        }
    }
}

/// The layers and switches that the triples from position `k` on make of
/// what is given: each triple names a layer, its keymap, and the action
/// that switches to the keymap.
pub open spec fn keymaps_from(params: Seq<ExprV>, k: int, layout: LayoutV) -> Result<LayoutV, Error>
    decreases params.len() - k,
{
    if k < 0 || k >= params.len() {
        Ok(layout)
    } else if k + 2 >= params.len() || !(params[k] is Atom) || !(params[k + 1] is Atom) {
        Err(Error::Shape)
    } else {
        match layer_at(layout.layers, params[k]->Atom_0, 0) {
            None => Err(Error::MissingLayer),
            Some(p) => match Keymap::of_lower(lowercase_of(params[k + 1]->Atom_0)) {
                None => Err(Error::UnknownKeymap),
                Some(lang) => match action_of(params[k + 2]) {
                    Err(e) => Err(e),
                    Ok(a) => if 0 <= p < layout.layers.len() {
                        keymaps_from(
                            params,
                            k + 3,
                            LayoutV {
                                layers: layout.layers.update(
                                    p,
                                    LayerV { keymap: lang, ..layout.layers[p] },
                                ),
                                keymaps: layout.keymaps.with(lang, a),
                                ..layout
                            },
                        )
                    } else {
                        Err(Error::MissingLayer)
                    },
                },
            },
        }
    }
}

/// Whether every key of a row is a modifier.
pub open spec fn all_modifiers(keys: Seq<Key>) -> bool {
    forall|i: int| 0 <= i < keys.len() ==> (#[trigger] keys[i]).modifier()
}

/// The override of a hotkey and an expression: the hotkey is modifiers and
/// a last key of the source row, hyphens between them; the expression is
/// the action.
pub open spec fn override_of(hotkey: Seq<char>, expr: ExprV, source: Seq<Key>) -> Result<
    OverrideV,
    Error,
> {
    match atom_action(hotkey) {
        Err(e) => Err(e),
        Ok(ActionV::Multi(parts)) => match tap_keys(parts, 0) {
            None => Err(Error::OverrideShape),
            Some(keys) => if keys.len() == 0 {
                Err(Error::OverrideShape)
            } else if !all_modifiers(keys.drop_last()) {
                Err(Error::OverrideShape)
            } else if !source.contains(keys.last()) {
                Err(Error::MissingKey)
            } else {
                match action_of(expr) {
                    Err(e) => Err(e),
                    Ok(a) => Ok(OverrideV { key: keys.last(), mods: keys.drop_last(), action: a }),
                }
            },
        },
        Ok(_) => Err(Error::OverrideShape),
    }
}

/// The overrides of the pairs from position `k` on.
pub open spec fn overrides_from(params: Seq<ExprV>, k: int, source: Seq<Key>) -> Result<
    Seq<OverrideV>,
    Error,
>
    decreases params.len() - k,
{
    if k < 0 || k >= params.len() {
        Ok(Seq::empty())
    } else if k + 1 >= params.len() || !(params[k] is Atom) {
        Err(Error::Shape)
    } else {
        match override_of(params[k]->Atom_0, params[k + 1], source) {
            Err(e) => Err(e),
            Ok(o) => match overrides_from(params, k + 2, source) {
                Err(e) => Err(e),
                Ok(rest) => Ok(seq![o] + rest),
            },
        }
    }
}

/// What the form `name` with the parameters `params`, the `i`-th of the
/// source, makes of a draft.
pub open spec fn form_applied(
    name: Seq<char>,
    params: Seq<ExprV>,
    i: usize,
    d: Draft,
    res: ResourcesV,
) -> Result<Draft, Error> {
    let layout = d.layout;
    if name == "defsrc"@ {
        match source_row(params, 0, Seq::empty()) {
            Err(e) => Err(e),
            Ok(keys) => if layout.keyboard.source.len() != 0 && layout.keyboard.source.len()
                != keys.len() {
                Err(Error::WrongKeyCount)
            } else {
                Ok(
                    Draft {
                        layout: LayoutV {
                            layers: with_layer(layout.layers, src_layer(keys)),
                            keyboard: KeyboardV { source: keys, ..layout.keyboard },
                            ..layout
                        },
                        ..d
                    },
                )
            },
        }
    } else if name == "keyboard"@ {
        if params.len() != 1 || !(params[0] is Atom) {
            Err(Error::Shape)
        } else {
            match descriptor(res.keyboards, params[0]->Atom_0, 0) {
                None => Err(Error::UnknownKeyboard),
                Some(text) => match keyboard_of(text) {
                    Err(e) => Err(e),
                    Ok(kb) => Ok(
                        Draft {
                            layout: LayoutV {
                                layers: with_layer(layout.layers, src_layer(kb.source)),
                                keyboard: kb,
                                ..layout
                            },
                            ..d
                        },
                    ),
                },
            }
        }
    } else if name == "deflayer"@ {
        match header_of(params) {
            Err(e) => Err(e),
            Ok(h) => match row_slots(h.rest) {
                Err(e) => Err(e),
                Ok(keys) => if keys.len() != layout.keyboard.source.len() {
                    Err(Error::WrongKeyCount)
                } else if layer_of(layout.layers, h.name).is_some() {
                    Err(Error::DuplicateLayer)
                } else {
                    Ok(
                        Draft {
                            layout: LayoutV {
                                layers: with_layer(
                                    layout.layers,
                                    LayerV {
                                        name: h.name,
                                        parent: h.parent,
                                        keys: keys,
                                        overrides: Seq::empty(),
                                        index: i,
                                        keymap: Keymap::En,
                                    },
                                ),
                                ..layout
                            },
                            ..d
                        },
                    )
                },
            },
        }
    } else if name == "deflayermap"@ {
        match header_of(params) {
            Err(e) => Err(e),
            Ok(h) => match map_slots(h.rest, layout.keyboard.source, 0, Seq::empty()) {
                Err(e) => Err(e),
                Ok(keys) => match base_layer(layout.layers, h.parent, h.name, i) {
                    Err(e) => Err(e),
                    Ok(base) => Ok(
                        Draft {
                            layout: LayoutV {
                                layers: with_layer(
                                    layout.layers,
                                    LayerV { keys: overlay(base.keys, keys), ..base },
                                ),
                                ..layout
                            },
                            ..d
                        },
                    ),
                },
            },
        }
    } else if name == "defalias"@ {
        match aliases_from(params, 0, Seq::empty()) {
            Err(e) => Err(e),
            Ok(more) => Ok(Draft { aliases: d.aliases + more, ..d }),
        }
    } else if name == "defkeymap"@ {
        match keymaps_from(params, 0, layout) {
            Err(e) => Err(e),
            Ok(l) => Ok(Draft { layout: l, ..d }),
        }
    } else if name == "defoverride"@ {
        match header_of(params) {
            Err(e) => Err(e),
            Ok(h) => match base_layer(layout.layers, h.parent, h.name, i) {
                Err(e) => Err(e),
                Ok(base) => match overrides_from(h.rest, 0, layout.keyboard.source) {
                    Err(e) => Err(e),
                    Ok(os) => Ok(
                        Draft {
                            layout: LayoutV {
                                layers: with_layer(layout.layers, LayerV { overrides: os, ..base }),
                                ..layout
                            },
                            ..d
                        },
                    ),
                },
            },
        }
    } else if name == "defvial"@ {
        match table_from(params, 0, Seq::empty()) {
            Err(e) => Err(e),
            Ok(t) => Ok(
                Draft {
                    layout: LayoutV { keyboard: KeyboardV { vial: t, ..layout.keyboard }, ..layout },
                    ..d
                },
            ),
        }
    } else {
        Err(Error::UnexpectedForm)
    }
}

/// What the forms from position `i` on make of a draft. Every form is a
/// list that begins with its name.
pub open spec fn assembled(forms: Seq<ExprV>, i: int, d: Draft, res: ResourcesV) -> Result<
    Draft,
    Error,
>
    decreases forms.len() - i,
{
    if i < 0 || i >= forms.len() {
        Ok(d)
    } else {
        match forms[i] {
            ExprV::Atom(_) => Err(Error::Shape),
            ExprV::List(lst) => if lst.len() == 0 || !(lst[0] is Atom) {
                Err(Error::Shape)
            } else {
                match form_applied(lst[0]->Atom_0, lst.drop_first(), i as usize, d, res) {
                    Err(e) => Err(e),
                    Ok(next) => assembled(forms, i + 1, next, res),
                }
            },
        }
    }
}

/// The empty draft.
pub open spec fn blank() -> Draft {
    Draft {
        layout: LayoutV {
            layers: Seq::empty(),
            keyboard: KeyboardV {
                matrix: Seq::empty(),
                vial: Seq::empty(),
                source: Seq::empty(),
                meta: Seq::empty(),
            },
            keymaps: KeymapsV { en: None, ru: None },
        },
        aliases: Seq::empty(),
    }
}

/// The Unicode table that preparing a draft works with: the table of the
/// resources where a `Unicode` stands in a layer or in an alias; else the
/// table is not read, and the empty table stands for it.
pub open spec fn table_for(d: Draft, res: ResourcesV) -> Result<UnicodeTableV, Error> {
    if unicode_used(d.layout.layers, d.aliases) {
        table_of(res.unicode)
    } else {
        Ok(UnicodeTableV { en: Seq::empty(), ru: Seq::empty() })
    }
}

/// What a source text means as a layout: read, preprocessed, assembled form
/// by form, and prepared.
pub open spec fn layout_of(content: Seq<char>, res: ResourcesV) -> Result<LayoutV, Error> {
    match read(seq!['('] + content + seq![')']) {
        None => Err(Error::Reader),
        Some(expr) => match preprocessed(expr) {
            Err(e) => Err(e),
            Ok(ExprV::Atom(_)) => Err(Error::Shape),
            Ok(ExprV::List(forms)) => match assembled(forms, 0, blank(), res) {
                Err(e) => Err(e),
                Ok(d) => match table_for(d, res) {
                    Err(e) => Err(e),
                    Ok(table) => match prepared(
                        d.layout.layers,
                        d.aliases,
                        d.layout.keymaps,
                        table,
                    ) {
                        Err(e) => Err(e),
                        Ok(layers) => Ok(LayoutV { layers: layers, ..d.layout }),
                    },
                },
            },
        },
    }
}

/// The first key of a row that is no modifier.
pub fn check_all_with(src: &Vec<Key>) -> (r: Result<(), Key>)
    ensures
        match r {
            Ok(_) => all_modifiers(src@),
            Err(k) => !k.modifier() && exists|i: int|
                0 <= i < src@.len() && src@[i] == k && all_modifiers(src@.take(i)),
        },
{
    let mut i: usize = 0;
    while i < src.len()
        invariant
            i <= src.len(),
            forall|j: int| 0 <= j < i ==> (#[trigger] src@[j]).modifier(),
        decreases src.len() - i,
    {
        if !src[i].is_modifier() {
            assert(all_modifiers(src@.take(i as int)));
            return Err(src[i]);
        }
        i = i + 1;
    }
    Ok(())
}

fn find_descriptor<'a>(keyboards: &'a Vec<(String, String)>, id: &str) -> (r: Option<&'a str>)
    ensures
        match r {
            Some(t) => descriptor(keyboards_view(keyboards@), id@, 0) == Some(t@),
            None => descriptor(keyboards_view(keyboards@), id@, 0).is_none(),
        },
{
    let ghost kv = keyboards_view(keyboards@);
    let mut k: usize = 0;
    while k < keyboards.len()
        invariant
            k <= keyboards.len(),
            kv == keyboards_view(keyboards@),
            descriptor(kv, id@, 0) == descriptor(kv, id@, k as int),
        decreases keyboards.len() - k,
    {
        if same(keyboards[k].0.as_str(), id) {
            return Some(keyboards[k].1.as_str());
        }
        k = k + 1;
    }
    None
}

#[verifier::loop_isolation(false)]
fn read_aliases(params: &Vec<Expr>) -> (r: Result<Aliases, Error>)
    ensures
        match r {
            Ok(a) => aliases_from(exprs(params@), 0, Seq::empty()) == Ok::<
                Seq<(Seq<char>, ActionV)>,
                Error,
            >(table_view(a@)),
            Err(e) => aliases_from(exprs(params@), 0, Seq::empty()) == Err::<
                Seq<(Seq<char>, ActionV)>,
                Error,
            >(e),
        },
{
    let ghost all = exprs(params@);
    let mut out: Aliases = Vec::new();
    let mut k: usize = 0;
    assert(table_view(out@) =~= Seq::<(Seq<char>, ActionV)>::empty());
    while k < params.len()
        invariant
            k <= params.len(),
            aliases_from(all, 0, Seq::empty()) == aliases_from(all, k as int, table_view(out@)),
        decreases params.len() - k,
    {
        if params.len() - k < 2 {
            return Err(Error::Shape);
        }
        assert(all[k as int] == params@[k as int]@);
        assert(all[k + 1] == params@[k + 1]@);
        let name = match params[k].atom() {
            Ok(n) => n,
            Err(e) => {
                return Err(e);
            },
        };
        let action = match Action::from_expr(&params[k + 1]) {
            Ok(a) => a,
            Err(e) => {
                return Err(e);
            },
        };
        let ghost before = table_view(out@);
        let owned = name.to_owned();
        out.push((owned, action));
        assert(table_view(out@) =~= before.push((name@, action@)));
        k = k + 2;
    }
    Ok(out)
}

fn read_override(hotkey: &str, expr: &Expr, source: &Vec<Key>) -> (r: Result<Override, Error>)
    ensures
        match r {
            Ok(o) => override_of(hotkey@, expr@, source@) == Ok::<OverrideV, Error>(o@),
            Err(e) => override_of(hotkey@, expr@, source@) == Err::<OverrideV, Error>(e),
        },
{
    let atom = Expr::Atom(String::from_str(hotkey));
    let parts = match Action::from_expr(&atom) {
        Err(e) => {
            return Err(e);
        },
        Ok(Action::Multi(parts)) => parts,
        Ok(_) => {
            return Err(Error::OverrideShape);
        },
    };
    let mut keys = match taps(&parts) {
        Some(k) => k,
        None => {
            return Err(Error::OverrideShape);
        },
    };
    let ghost all = keys@;
    let key = match keys.pop() {
        Some(k) => k,
        None => {
            return Err(Error::OverrideShape);
        },
    };
    assert(keys@ =~= all.drop_last());
    match check_all_with(&keys) {
        Ok(_) => {},
        Err(bad) => {
            assert(!all_modifiers(keys@)) by {
                let i = choose|i: int| 0 <= i < keys@.len() && keys@[i] == bad;
                assert(!keys@[i].modifier());
            }
            return Err(Error::OverrideShape);
        },
    }
    if !has_key(source, key) {
        return Err(Error::MissingKey);
    }
    let action = match Action::from_expr(expr) {
        Ok(a) => a,
        Err(e) => {
            return Err(e);
        },
    };
    Ok(Override { key: key, mods: keys, action: action })
}

#[verifier::loop_isolation(false)]
fn read_overrides(params: &Vec<Expr>, source: &Vec<Key>) -> (r: Result<Vec<Override>, Error>)
    ensures
        match r {
            Ok(os) => overrides_from(exprs(params@), 0, source@) == Ok::<Seq<OverrideV>, Error>(
                overrides_view(os@),
            ),
            Err(e) => overrides_from(exprs(params@), 0, source@) == Err::<Seq<OverrideV>, Error>(e),
        },
{
    let ghost all = exprs(params@);
    let mut out: Vec<Override> = Vec::new();
    let mut k: usize = 0;
    assert(overrides_view(out@) =~= Seq::<OverrideV>::empty());
    while k < params.len()
        invariant
            k <= params.len(),
            overrides_from(all, 0, source@) == (match overrides_from(all, k as int, source@) {
                Ok(rest) => Ok::<Seq<OverrideV>, Error>(overrides_view(out@) + rest),
                Err(e) => Err(e),
            }),
        decreases params.len() - k,
    {
        if params.len() - k < 2 {
            return Err(Error::Shape);
        }
        assert(all[k as int] == params@[k as int]@);
        assert(all[k + 1] == params@[k + 1]@);
        let hotkey = match params[k].atom() {
            Ok(h) => h,
            Err(e) => {
                return Err(e);
            },
        };
        let o = match read_override(hotkey, &params[k + 1], source) {
            Ok(o) => o,
            Err(e) => {
                return Err(e);
            },
        };
        let ghost before = overrides_view(out@);
        proof {
            match overrides_from(all, k + 2, source@) {
                Ok(rest) => {
                    assert(before + (seq![o@] + rest) =~= before.push(o@) + rest);
                },
                Err(_) => {},
            }
        }
        out.push(o);
        assert(overrides_view(out@) =~= before.push(o@));
        k = k + 2;
    }
    assert(overrides_view(out@) + Seq::<OverrideV>::empty() =~= overrides_view(out@));
    Ok(out)
}

/// Lays the slots of `top` over those of `base`.
pub fn overlay_slots(base: &Vec<Option<Action>>, top: Vec<Option<Action>>) -> (r: Vec<
    Option<Action>,
>)
    ensures
        slots_view(r@) == overlay(slots_view(base@), slots_view(top@)),
{
    let ghost want = overlay(slots_view(base@), slots_view(top@));
    let n = if top.len() < base.len() {
        base.len()
    } else {
        top.len()
    };
    let mut out: Vec<Option<Action>> = Vec::new();
    let mut j: usize = 0;
    while j < n
        invariant
            j <= n,
            n == want.len(),
            want == overlay(slots_view(base@), slots_view(top@)),
            slots_view(out@) =~= want.take(j as int),
        decreases n - j,
    {
        let ghost before = slots_view(out@);
        let mut item: Option<Action> = None;
        if j < top.len() {
            item = match &top[j] {
                Some(a) => Some(a.clone()),
                None => None,
            };
        }
        if item.is_none() && j < base.len() {
            item = match &base[j] {
                Some(a) => Some(a.clone()),
                None => None,
            };
        }
        let ghost h = slot_view(item);
        out.push(item);
        assert(slots_view(out@) =~= before.push(h));
        j = j + 1;
    }
    assert(want.take(j as int) =~= want);
    out
}

impl Layout {
    /// A layout without layers.
    pub fn new() -> (r: Layout)
        ensures
            r@ == blank().layout,
    {
        let r = Layout { layers: Vec::new(), keyboard: Keyboard::new(), keymaps: Keymaps::new() };
        assert(r@.layers =~= Seq::empty());
        r
    }

    /// The layer to edit under the name `name`: a copy of the layer of that
    /// name where there is one; else a child of the layer `parent`; else a
    /// child of `src`.
    pub fn layer_from(&self, parent: String, name: String, i: usize) -> (r: Result<Layer, Error>)
        ensures
            match r {
                Ok(l) => base_layer(self@.layers, parent@, name@, i) == Ok::<LayerV, Error>(l@),
                Err(e) => base_layer(self@.layers, parent@, name@, i) == Err::<LayerV, Error>(e),
            },
    {
        match find_layer(&self.layers, name.as_str()) {
            Some(p) => {
                return Ok(self.layers[p].clone());
            },
            None => {},
        }
        match find_layer(&self.layers, parent.as_str()) {
            Some(p) => {
                return Ok(self.layers[p].child(name, i));
            },
            None => {},
        }
        match find_layer(&self.layers, "src") {
            Some(p) => Ok(self.layers[p].child(name, i)),
            None => Err(Error::MissingLayer),
        }
    }

    fn set_source(&mut self, keys: Vec<Key>)
        ensures
            final(self)@ == (LayoutV {
                layers: with_layer(old(self)@.layers, src_layer(keys@)),
                keyboard: KeyboardV { source: keys@, ..old(self)@.keyboard },
                ..old(self)@
            }),
    {
        let src = Layer::from_keyboard(&keys);
        self.keyboard.source = keys;
        insert_layer(&mut self.layers, src);
    }

    #[verifier::loop_isolation(false)]
    fn set_keymaps(&mut self, params: &Vec<Expr>) -> (r: Result<(), Error>)
        ensures
            match r {
                Ok(_) => keymaps_from(exprs(params@), 0, old(self)@) == Ok::<LayoutV, Error>(
                    final(self)@,
                ),
                Err(e) => keymaps_from(exprs(params@), 0, old(self)@) == Err::<LayoutV, Error>(e),
            },
    {
        let ghost all = exprs(params@);
        let mut k: usize = 0;
        while k < params.len()
            invariant
                k <= params.len(),
                keymaps_from(all, 0, old(self)@) == keymaps_from(all, k as int, self@),
            decreases params.len() - k,
        {
            if params.len() - k < 3 {
                return Err(Error::Shape);
            }
            assert(all[k as int] == params@[k as int]@);
            assert(all[k + 1] == params@[k + 1]@);
            assert(all[k + 2] == params@[k + 2]@);
            let name = match params[k].atom() {
                Ok(n) => n,
                Err(e) => {
                    return Err(e);
                },
            };
            let keymap = match params[k + 1].atom() {
                Ok(n) => n,
                Err(e) => {
                    return Err(e);
                },
            };
            let p = match find_layer(&self.layers, name) {
                Some(p) => p,
                None => {
                    return Err(Error::MissingLayer);
                },
            };
            let lang = match Keymap::from_str(keymap) {
                Ok(l) => l,
                Err(e) => {
                    return Err(e);
                },
            };
            let action = match Action::from_expr(&params[k + 2]) {
                Ok(a) => a,
                Err(e) => {
                    return Err(e);
                },
            };
            let ghost before = self@;
            self.keymaps.insert(lang, action);
            let mut changed = self.layers[p].clone();
            changed.keymap = lang;
            self.layers.set(p, changed);
            assert(self@.layers =~= before.layers.update(
                p as int,
                LayerV { keymap: lang, ..before.layers[p as int] },
            ));
            k = k + 3;
        }
        Ok(())
    }

    /// Applies one top-level form: the `i`-th of the source, with the name
    /// `name` and the parameters `params`.
    pub fn apply(
        &mut self,
        aliases: &mut Aliases,
        name: &str,
        params: &Vec<Expr>,
        i: usize,
        resources: &Resources,
    ) -> (r: Result<(), Error>)
        ensures
            match r {
                Ok(_) => form_applied(
                    name@,
                    exprs(params@),
                    i,
                    Draft { layout: old(self)@, aliases: table_view(old(aliases)@) },
                    resources@,
                ) == Ok::<Draft, Error>(
                    Draft { layout: final(self)@, aliases: table_view(final(aliases)@) },
                ),
                Err(e) => form_applied(
                    name@,
                    exprs(params@),
                    i,
                    Draft { layout: old(self)@, aliases: table_view(old(aliases)@) },
                    resources@,
                ) == Err::<Draft, Error>(e),
            },
    {
        if same(name, "defsrc") {
            let keys = match parse_keymap(params) {
                Ok(k) => k,
                Err(e) => {
                    return Err(e);
                },
            };
            let src = self.keyboard.source.len();
            if src != 0 && src != keys.len() {
                return Err(Error::WrongKeyCount);
            }
            self.set_source(keys);
            Ok(())
        } else if same(name, "keyboard") {
            if params.len() != 1 {
                return Err(Error::Shape);
            }
            assert(exprs(params@)[0] == params@[0]@);
            let id = match params[0].atom() {
                Ok(id) => id,
                Err(e) => {
                    return Err(e);
                },
            };
            let text = match find_descriptor(&resources.keyboards, id) {
                Some(t) => t,
                None => {
                    return Err(Error::UnknownKeyboard);
                },
            };
            let kb = match crate::parser::parse(text) {
                Ok(kb) => kb,
                Err(e) => {
                    return Err(e);
                },
            };
            let src = Layer::from_keyboard(&kb.source);
            self.keyboard = kb;
            insert_layer(&mut self.layers, src);
            Ok(())
        } else if same(name, "deflayer") {
            let layer = match Layer::from_def(params, i) {
                Ok(l) => l,
                Err(e) => {
                    return Err(e);
                },
            };
            if layer.keys.len() != self.keyboard.source.len() {
                return Err(Error::WrongKeyCount);
            }
            if find_layer(&self.layers, layer.name.as_str()).is_some() {
                return Err(Error::DuplicateLayer);
            }
            insert_layer(&mut self.layers, layer);
            Ok(())
        } else if same(name, "deflayermap") {
            let layer = match Layer::from_map(params, &self.keyboard.source) {
                Ok(l) => l,
                Err(e) => {
                    return Err(e);
                },
            };
            let mut l = match self.layer_from(layer.parent, layer.name, i) {
                Ok(l) => l,
                Err(e) => {
                    return Err(e);
                },
            };
            l.keys = overlay_slots(&l.keys, layer.keys);
            insert_layer(&mut self.layers, l);
            Ok(())
        } else if same(name, "defalias") {
            let mut more = match read_aliases(params) {
                Ok(m) => m,
                Err(e) => {
                    return Err(e);
                },
            };
            let ghost before = table_view(aliases@);
            let ghost added = table_view(more@);
            aliases.append(&mut more);
            assert(table_view(aliases@) =~= before + added);
            Ok(())
        } else if same(name, "defkeymap") {
            self.set_keymaps(params)
        } else if same(name, "defoverride") {
            let (name, parent, rest) = match Layer::get_name(params) {
                Ok(h) => h,
                Err(e) => {
                    return Err(e);
                },
            };
            let mut layer = match self.layer_from(parent, name, i) {
                Ok(l) => l,
                Err(e) => {
                    return Err(e);
                },
            };
            layer.overrides = match read_overrides(&rest, &self.keyboard.source) {
                Ok(os) => os,
                Err(e) => {
                    return Err(e);
                },
            };
            insert_layer(&mut self.layers, layer);
            Ok(())
        } else if same(name, "defvial") {
            self.keyboard.vial = match parse_vial(params) {
                Ok(t) => t,
                Err(e) => {
                    return Err(e);
                },
            };
            Ok(())
        } else {
            Err(Error::UnexpectedForm)
        }
    }

    /// Prepares the layers for the back-ends: aliases, transparency, the
    /// copies for keymaps, Unicode.
    pub fn prepare_layers(&mut self, aliases: &Aliases, table: &UnicodeTable) -> (r: Result<
        (),
        Error,
    >)
        ensures
            match r {
                Ok(_) => prepared(old(self)@.layers, table_view(aliases@), old(self)@.keymaps, table@)
                    == Ok::<Seq<LayerV>, Error>(final(self)@.layers) && final(self)@ == (LayoutV {
                    layers: final(self)@.layers,
                    ..old(self)@
                }),
                Err(e) => prepared(
                    old(self)@.layers,
                    table_view(aliases@),
                    old(self)@.keymaps,
                    table@,
                ) == Err::<Seq<LayerV>, Error>(e) && final(self)@ == old(self)@,
            },
    {
        match prepare(&self.layers, aliases, &self.keymaps, table) {
            Ok(layers) => {
                self.layers = layers;
                Ok(())
            },
            Err(e) => Err(e),
        }
    }

    /// Reads a layout from its source text.
    #[verifier::loop_isolation(false)]
    pub fn from_str(content: &str, resources: &Resources) -> (r: Result<Layout, Error>)
        ensures
            match r {
                Ok(l) => layout_of(content@, resources@) == Ok::<LayoutV, Error>(l@),
                Err(e) => layout_of(content@, resources@) == Err::<LayoutV, Error>(e),
            },
    {
        let mut text = String::new();
        text.push('(');
        text.append(content);
        text.push(')');
        assert(text@ =~= seq!['('] + content@ + seq![')']);
        let expr = match from_str(text.as_str()) {
            Ok(e) => e,
            Err(e) => {
                return Err(e);
            },
        };
        let root = match preprocess(&expr) {
            Ok(r) => r,
            Err(e) => {
                return Err(e);
            },
        };
        let forms = match root.list() {
            Ok(f) => f,
            Err(e) => {
                return Err(e);
            },
        };
        let ghost all = exprs(forms@);
        let mut layout = Layout::new();
        let mut aliases: Aliases = Vec::new();
        assert(table_view(aliases@) =~= Seq::<(Seq<char>, ActionV)>::empty());
        let mut i: usize = 0;
        while i < forms.len()
            invariant
                i <= forms.len(),
                assembled(all, 0, blank(), resources@) == assembled(
                    all,
                    i as int,
                    Draft { layout: layout@, aliases: table_view(aliases@) },
                    resources@,
                ),
            decreases forms.len() - i,
        {
            assert(all[i as int] == forms@[i as int]@);
            let lst = match forms[i].list() {
                Ok(l) => l,
                Err(e) => {
                    return Err(e);
                },
            };
            if lst.len() == 0 {
                return Err(Error::Shape);
            }
            assert(exprs(lst@)[0] == lst@[0]@);
            let name = match lst[0].atom() {
                Ok(n) => n,
                Err(e) => {
                    return Err(e);
                },
            };
            let params = tail_of(lst);
            match layout.apply(&mut aliases, name, &params, i, resources) {
                Ok(_) => {},
                Err(e) => {
                    return Err(e);
                },
            }
            i = i + 1;
        }
        let table = if uses_unicode(&layout.layers, &aliases) {
            match load_lang_chars(resources.unicode.as_str()) {
                Ok(t) => t,
                Err(e) => {
                    return Err(e);
                },
            }
        } else {
            let t = UnicodeTable { en: Vec::new(), ru: Vec::new() };
            assert(t@.en =~= Seq::empty());
            assert(t@.ru =~= Seq::empty());
            t
        };
        match layout.prepare_layers(&aliases, &table) {
            Ok(_) => Ok(layout),
            Err(e) => Err(e),
        }
    }
}

/// Setting keymaps keeps the names of the layers apart.
pub proof fn keymaps_from_keeps_names_apart(params: Seq<ExprV>, k: int, layout: LayoutV)
    requires
        0 <= k,
        super::layers::names_unique(layout.layers),
    ensures
        match keymaps_from(params, k, layout) {
            Ok(l) => super::layers::names_unique(l.layers),
            Err(_) => true,
        },
    decreases params.len() - k,
{
    if k < params.len() && !(k + 2 >= params.len() || !(params[k] is Atom) || !(params[k
        + 1] is Atom)) {
        match (
            layer_at(layout.layers, params[k]->Atom_0, 0),
            Keymap::of_lower(lowercase_of(params[k + 1]->Atom_0)),
            action_of(params[k + 2]),
        ) {
            (Some(p), Some(lang), Ok(a)) => {
                if 0 <= p < layout.layers.len() {
                    let next = LayoutV {
                        layers: layout.layers.update(p, LayerV { keymap: lang, ..layout.layers[p] }),
                        keymaps: layout.keymaps.with(lang, a),
                        ..layout
                    };
                    super::layers::same_names_stay_apart(layout.layers, next.layers);
                    keymaps_from_keeps_names_apart(params, k + 3, next);
                }
            },
            _ => {},
        }
    }
}

/// A form keeps the names of the layers apart.
pub proof fn form_keeps_names_apart(
    name: Seq<char>,
    params: Seq<ExprV>,
    i: usize,
    d: Draft,
    res: ResourcesV,
)
    requires
        super::layers::names_unique(d.layout.layers),
    ensures
        match form_applied(name, params, i, d, res) {
            Ok(next) => super::layers::names_unique(next.layout.layers),
            Err(_) => true,
        },
{
    match form_applied(name, params, i, d, res) {
        Err(_) => {},
        Ok(next) => {
            let layers = d.layout.layers;
            if name == "defsrc"@ {
                let keys = source_row(params, 0, Seq::empty())->Ok_0;
                super::layers::with_layer_keeps_names_apart(layers, src_layer(keys));
            } else if name == "keyboard"@ {
                let kb = keyboard_of(descriptor(res.keyboards, params[0]->Atom_0, 0)->0)->Ok_0;
                super::layers::with_layer_keeps_names_apart(layers, src_layer(kb.source));
            } else if name == "deflayer"@ {
                let h = header_of(params)->Ok_0;
                let keys = row_slots(h.rest)->Ok_0;
                super::layers::with_layer_keeps_names_apart(
                    layers,
                    LayerV {
                        name: h.name,
                        parent: h.parent,
                        keys: keys,
                        overrides: Seq::empty(),
                        index: i,
                        keymap: Keymap::En,
                    },
                );
            } else if name == "deflayermap"@ {
                let h = header_of(params)->Ok_0;
                let keys = map_slots(h.rest, d.layout.keyboard.source, 0, Seq::empty())->Ok_0;
                let base = base_layer(layers, h.parent, h.name, i)->Ok_0;
                super::layers::with_layer_keeps_names_apart(
                    layers,
                    LayerV { keys: overlay(base.keys, keys), ..base },
                );
            } else if name == "defalias"@ {
            } else if name == "defkeymap"@ {
                keymaps_from_keeps_names_apart(params, 0, d.layout);
            } else if name == "defoverride"@ {
                let h = header_of(params)->Ok_0;
                let base = base_layer(layers, h.parent, h.name, i)->Ok_0;
                let os = overrides_from(h.rest, 0, d.layout.keyboard.source)->Ok_0;
                super::layers::with_layer_keeps_names_apart(layers, LayerV { overrides: os, ..base });
            } else if name == "defvial"@ {
            }
        },
    }
}

/// The forms of a source keep the names of the layers apart.
pub proof fn assembled_keeps_names_apart(forms: Seq<ExprV>, i: int, d: Draft, res: ResourcesV)
    requires
        0 <= i,
        super::layers::names_unique(d.layout.layers),
    ensures
        match assembled(forms, i, d, res) {
            Ok(next) => super::layers::names_unique(next.layout.layers),
            Err(_) => true,
        },
    decreases forms.len() - i,
{
    if i < forms.len() {
        match forms[i] {
            ExprV::Atom(_) => {},
            ExprV::List(lst) => {
                if !(lst.len() == 0 || !(lst[0] is Atom)) {
                    form_keeps_names_apart(lst[0]->Atom_0, lst.drop_first(), i as usize, d, res);
                    match form_applied(lst[0]->Atom_0, lst.drop_first(), i as usize, d, res) {
                        Err(_) => {},
                        Ok(next) => {
                            assembled_keeps_names_apart(forms, i + 1, next, res);
                        },
                    }
                }
            },
        }
    }
}

/// No two layers of a layout share a name.
pub proof fn layer_names_are_unique(content: Seq<char>, res: ResourcesV)
    ensures
        match layout_of(content, res) {
            Ok(l) => super::layers::names_unique(l.layers),
            Err(_) => true,
        },
{
    match layout_of(content, res) {
        Err(_) => {},
        Ok(l) => {
            let expr = read(seq!['('] + content + seq![')'])->0;
            let forms = preprocessed(expr)->Ok_0->List_0;
            assembled_keeps_names_apart(forms, 0, blank(), res);
            let d = assembled(forms, 0, blank(), res)->Ok_0;
            let table = table_for(d, res)->Ok_0;
            super::prepare::prepared_keeps_names_apart(
                d.layout.layers,
                d.aliases,
                d.layout.keymaps,
                table,
            );
        },
    }
}

} // verus!
