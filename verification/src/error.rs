use vstd::prelude::*;

verus! {

/// Every way in which reading, resolving or lowering a layout can fail.
#[derive(Clone, Copy, Debug, PartialEq, Eq, Structural)]
pub enum Error {
    /// Unbalanced parentheses or an empty token stream.
    Reader,
    /// A form with the wrong arity, or a list where an atom was expected (or
    /// the reverse).
    Shape,
    /// A form whose head names no known top-level form.
    UnexpectedForm,
    /// An atom that names no key.
    UnknownKey,
    /// An atom that names no keymap.
    UnknownKeymap,
    /// A list whose head names no action.
    UnknownAction,
    /// A number that is not a decimal value of the expected width.
    BadNumber,
    /// The same key twice in a source row or in a vial table.
    DuplicateKey,
    /// A template parameter that does not begin with `$`.
    BadArgument,
    /// The same parameter twice in one template.
    DuplicateArgument,
    /// Template calls that stand inside one another beyond the limit; a
    /// template that calls itself does so.
    TemplateDepth,
    /// More slots than a key index can number.
    TooManyKeys,
    /// A layer's row does not have one entry per source key.
    WrongKeyCount,
    /// A reference to an alias that was never defined.
    MissingAlias,
    /// Aliases that refer to each other without end.
    AliasCycle,
    /// A reference to a layer that was never defined.
    MissingLayer,
    /// A positional definition of a layer that there is already.
    DuplicateLayer,
    /// A key that the source row or the vial table does not hold.
    MissingKey,
    /// The layer dependency graph has a cycle or an unknown dependency.
    CycleDetected,
    /// An override whose hotkey or action cannot be lowered.
    OverrideShape,
    /// A `Unicode`, or an `Alias`, that reached a back-end unresolved.
    Unresolved,
    /// A `Hold` or `Release` outside a `Sequence`.
    NotInSequence,
    /// An action or key that the chosen back-end has no form for.
    Unsupported,
    /// More macros, tap dances, overrides or layers than the firmware can
    /// number.
    TooMany,
    /// A definition of the layer `src`, which stands for the keyboard itself.
    ReservedLayer,
    /// A keyboard that is not among the known descriptors.
    UnknownKeyboard,
    /// A back-end that needs a vial table found none.
    MissingVial,
}

impl Error {
    /// A short description of the error.
    pub fn message(&self) -> (r: &'static str)
        ensures
            r@ == self.message_text(),
    {
        match self {
            Error::Reader => "Parse error",
            Error::Shape => "Syntax error",
            Error::UnexpectedForm => "Unexpected form",
            Error::UnknownKey => "Unknown key",
            Error::UnknownKeymap => "Unknown keymap",
            Error::UnknownAction => "Unknown action",
            Error::BadNumber => "Unknown value",
            Error::DuplicateKey => "Key duplicate",
            Error::BadArgument => "Argument should start from $",
            Error::DuplicateArgument => "Argument already defined",
            Error::TemplateDepth => "Templates nested too deep",
            Error::TooManyKeys => "Too many keys",
            Error::WrongKeyCount => "Unexpected number of keys",
            Error::MissingAlias => "Alias not found",
            Error::AliasCycle => "Alias cycle",
            Error::MissingLayer => "Layer not found",
            Error::DuplicateLayer => "Layer already defined",
            Error::MissingKey => "Key not found",
            Error::CycleDetected => "Cycle detected",
            Error::OverrideShape => "Action is not supported in override",
            Error::Unresolved => "Action not implemented",
            Error::NotInSequence => "Action not in sequence",
            Error::Unsupported => "Action not supported",
            Error::TooMany => "Too many entries",
            Error::ReservedLayer => "Cannot override src layer",
            Error::UnknownKeyboard => "Keyboard not found",
            Error::MissingVial => "Vial is not defined",
        }
    }

    pub open spec fn message_text(&self) -> Seq<char> {
        match self {
            Error::Reader => "Parse error"@,
            Error::Shape => "Syntax error"@,
            Error::UnexpectedForm => "Unexpected form"@,
            Error::UnknownKey => "Unknown key"@,
            Error::UnknownKeymap => "Unknown keymap"@,
            Error::UnknownAction => "Unknown action"@,
            Error::BadNumber => "Unknown value"@,
            Error::DuplicateKey => "Key duplicate"@,
            Error::BadArgument => "Argument should start from $"@,
            Error::DuplicateArgument => "Argument already defined"@,
            Error::TemplateDepth => "Templates nested too deep"@,
            Error::TooManyKeys => "Too many keys"@,
            Error::WrongKeyCount => "Unexpected number of keys"@,
            Error::MissingAlias => "Alias not found"@,
            Error::AliasCycle => "Alias cycle"@,
            Error::MissingLayer => "Layer not found"@,
            Error::DuplicateLayer => "Layer already defined"@,
            Error::MissingKey => "Key not found"@,
            Error::CycleDetected => "Cycle detected"@,
            Error::OverrideShape => "Action is not supported in override"@,
            Error::Unresolved => "Action not implemented"@,
            Error::NotInSequence => "Action not in sequence"@,
            Error::Unsupported => "Action not supported"@,
            Error::TooMany => "Too many entries"@,
            Error::ReservedLayer => "Cannot override src layer"@,
            Error::UnknownKeyboard => "Keyboard not found"@,
            Error::MissingVial => "Vial is not defined"@,
        }
    }

    /// The description as an owned string.
    pub fn to_string(&self) -> (r: String)
        ensures
            r@ == self.message_text(),
    {
        String::from_str(self.message())
    }
}

} // verus!
