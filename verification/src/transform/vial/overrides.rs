//! Key overrides as the firmware takes them.

use super::keycode::{key_to_mod, mod_name, Keycode};
use crate::error::Error;
use crate::keys::{dedup, distinct, has_key, Key};
use crate::text::{joined, push_joined, texts};
use vstd::prelude::*;
use vstd::string::StringExecFns;

verus! {

/// An override lifted to key codes: the trigger with its modifiers, and the
/// replacement with its own.
#[derive(Debug)]
pub struct Override {
    pub source: Keycode,
    pub target: Keycode,
    pub source_mods: Vec<Key>,
    pub target_mods: Vec<Key>,
}

/// The value of an [`Override`].
pub struct OverrideV {
    pub source: Seq<char>,
    pub target: Seq<char>,
    pub source_mods: Seq<Key>,
    pub target_mods: Seq<Key>,
}

impl View for Override {
    type V = OverrideV;

    open spec fn view(&self) -> OverrideV {
        OverrideV {
            source: self.source@,
            target: self.target@,
            source_mods: self.source_mods@,
            target_mods: self.target_mods@,
        }
    }
}

/// One override as it is sent to the firmware. The modifier sets are held by
/// their names, `|` between them; the device layer turns each into its bit
/// mask. The empty text stands for no modifier.
#[derive(Debug, PartialEq, Eq)]
pub struct KeyOverride {
    pub index: u8,
    pub trigger: Keycode,
    pub replacement: Keycode,
    pub layers: u16,
    pub trigger_mods: String,
    pub suppressed_mods: String,
}

/// The value of a [`KeyOverride`].
pub struct KeyOverrideV {
    pub index: u8,
    pub trigger: Seq<char>,
    pub replacement: Seq<char>,
    pub layers: u16,
    pub trigger_mods: Seq<char>,
    pub suppressed_mods: Seq<char>,
}

impl View for KeyOverride {
    type V = KeyOverrideV;

    open spec fn view(&self) -> KeyOverrideV {
        KeyOverrideV {
            index: self.index,
            trigger: self.trigger@,
            replacement: self.replacement@,
            layers: self.layers,
            trigger_mods: self.trigger_mods@,
            suppressed_mods: self.suppressed_mods@,
        }
    }
}

/// The keys of `a` that do not stand in `b`, in order.
pub open spec fn without(a: Seq<Key>, b: Seq<Key>) -> Seq<Key>
    decreases a.len(),
{
    if a.len() == 0 {
        Seq::empty()
    } else if b.contains(a.last()) {
        without(a.drop_last(), b)
    } else {
        without(a.drop_last(), b).push(a.last())
    }
}

/// The keys that stand in exactly one of two rows: those of the first
/// without repeats, then those of the second.
pub open spec fn sym_diff(a: Seq<Key>, b: Seq<Key>) -> Seq<Key> {
    without(distinct(a), b) + without(distinct(b), a)
}

/// The firmware's names of the modifiers of a row, in order; keys that are
/// no modifiers are left out.
pub open spec fn names_of(mods: Seq<Key>) -> Seq<Seq<char>>
    decreases mods.len(),
{
    if mods.len() == 0 {
        Seq::empty()
    } else {
        match mod_name(mods.last()) {
            Some(n) => names_of(mods.drop_last()).push(n),
            None => names_of(mods.drop_last()),
        }
    }
}

/// The text that names a modifier set: the names with `|` between them.
pub open spec fn mask_text(mods: Seq<Key>) -> Seq<char> {
    joined(names_of(mods), "|"@)
}

fn minus(a: &Vec<Key>, b: &Vec<Key>) -> (r: Vec<Key>)
    ensures
        r@ == without(a@, b@),
{
    let mut out: Vec<Key> = Vec::new();
    let mut i: usize = 0;
    assert(a@.take(0) =~= Seq::<Key>::empty());
    while i < a.len()
        invariant
            i <= a.len(),
            out@ == without(a@.take(i as int), b@),
        decreases a.len() - i,
    {
        assert(a@.take(i + 1).drop_last() =~= a@.take(i as int));
        if !has_key(b, a[i]) {
            out.push(a[i]);
        }
        i = i + 1;
    }
    assert(a@.take(i as int) =~= a@);
    out
}

/// The text that names a modifier set.
pub fn mods_to_names(mods: &Vec<Key>) -> (r: String)
    ensures
        r@ == mask_text(mods@),
{
    let mut names: Vec<String> = Vec::new();
    let mut i: usize = 0;
    assert(mods@.take(0) =~= Seq::<Key>::empty());
    assert(texts(names@) =~= Seq::<Seq<char>>::empty());
    while i < mods.len()
        invariant
            i <= mods.len(),
            texts(names@) == names_of(mods@.take(i as int)),
        decreases mods.len() - i,
    {
        assert(mods@.take(i + 1).drop_last() =~= mods@.take(i as int));
        match key_to_mod(&mods[i]) {
            Some(n) => {
                let ghost before = texts(names@);
                names.push(String::from_str(n));
                assert(texts(names@) =~= before.push(n@));
            },
            None => {},
        }
        i = i + 1;
    }
    assert(mods@.take(i as int) =~= mods@);
    let mut out = String::new();
    push_joined(&mut out, &names, "|");
    assert(Seq::<char>::empty() + mask_text(mods@) =~= mask_text(mods@));
    out
}

impl Override {
    /// The modifiers that trigger the override, and those that it
    /// suppresses: the ones that stand in exactly one of the two sets.
    pub fn get_mods(&self) -> (r: (Vec<Key>, Vec<Key>))
        ensures
            r.0@ == self@.source_mods,
            r.1@ == sym_diff(self@.source_mods, self@.target_mods),
    {
        let a = dedup(&self.source_mods);
        let b = dedup(&self.target_mods);
        let mut out = minus(&a, &self.target_mods);
        let mut rest = minus(&b, &self.source_mods);
        out.append(&mut rest);
        (self.source_mods.clone(), out)
    }

    /// The override as it is sent to the firmware, with its number and the
    /// mask of the layers on which it is active.
    pub fn to_key_override(&self, layers_mask: u16, i: usize) -> (r: Result<KeyOverride, Error>)
        ensures
            match r {
                Ok(k) => i <= 255 && k@ == (KeyOverrideV {
                    index: i as u8,
                    trigger: self@.source,
                    replacement: self@.target,
                    layers: layers_mask,
                    trigger_mods: mask_text(self@.source_mods),
                    suppressed_mods: mask_text(sym_diff(self@.source_mods, self@.target_mods)),
                }),
                Err(e) => i > 255 && e == Error::TooMany,
            },
    {
        if i > 255 {
            return Err(Error::TooMany);
        }
        let (source, target) = self.get_mods();
        Ok(
            KeyOverride {
                index: i as u8,
                trigger: self.source.clone(),
                replacement: self.target.clone(),
                layers: layers_mask,
                trigger_mods: mods_to_names(&source),
                suppressed_mods: mods_to_names(&target),
            },
        )
    }
}

} // verus!
