//! The syntax definitions that all editors share.
use syntect::parsing::SyntaxSet;
use vstd::prelude::*;

verus! {

/// The syntax definitions of `syntect`: a value that is kept and handed out, never looked into.
#[verifier::external_type_specification]
#[verifier::external_body]
pub struct ExSyntaxSet(syntect::parsing::SyntaxSet);

/// `SyntaxSet::load_defaults_newlines`: the definitions that come with `syntect`. Nothing is
/// claimed of them.
#[verifier::external_body]
fn default_syntaxes() -> (r: SyntaxSet) {
    SyntaxSet::load_defaults_newlines()
}

/// The place where the shared definitions are kept. They are set at most once: by the
/// application, else by the first editor that is drawn.
pub struct SyntaxSlot {
    syntaxes: Option<SyntaxSet>,
}

impl View for SyntaxSlot {
    type V = Option<SyntaxSet>;

    closed spec fn view(&self) -> Option<SyntaxSet> {
        self.syntaxes
    }
}

impl SyntaxSlot {
    /// Nothing is set yet.
    pub fn new() -> (r: Self)
        ensures
            r@ is None,
    {
        SyntaxSlot { syntaxes: None }
    }

    /// Tells whether definitions are set.
    pub fn is_set(&self) -> (r: bool)
        ensures
            r == self@ is Some,
    {
        self.syntaxes.is_some()
    }

    /// The definitions to draw with. Those that come with `syntect` are set if there are none.
    pub fn get_or_default(&mut self) -> (r: &SyntaxSet)
        ensures
            final(self)@ == Some(*r),
            old(self)@ is Some ==> final(self)@ == old(self)@,
    {
        if self.syntaxes.is_none() {
            self.syntaxes = Some(default_syntaxes());
        }
        self.syntaxes.as_ref().unwrap()
    }
}

/// Sets custom definitions for syntax highlighting in all editors.
///
/// Must be called before any editor is drawn for the first time. Returns `true` if they were
/// set, `false` if there were definitions already, which stay.
pub fn set_syntax_set(slot: &mut SyntaxSlot, syntax_set: SyntaxSet) -> (r: bool)
    ensures
        r == old(slot)@ is None,
        final(slot)@ == (if old(slot)@ is None {
            Some(syntax_set)
        } else {
            old(slot)@
        }),
{
    if slot.syntaxes.is_some() {
        return false;
    }
    slot.syntaxes = Some(syntax_set);
    true
}

} // verus!
