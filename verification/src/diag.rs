//! Diagnostics: an error message optionally anchored to a span, with zero or
//! more free-form notes. Rendering to the terminal is left to the host
//! program; this module only builds and exposes the data.

use vstd::prelude::*;
use crate::span::{Span, SpanView};

verus! {

/// The ghost image of a diagnostic: its message, optional span, and notes,
/// as sequences of characters.
#[verifier::ext_equal]
pub ghost struct DiagView {
    pub msg: Seq<char>,
    pub span: Option<SpanView>,
    pub notes: Seq<Seq<char>>,
}

/// An error message paired with an optional span and possibly a number of
/// additional notes.
#[derive(Debug, Clone)]
pub struct Diag {
    msg: String,
    span: Option<Span>,
    notes: Vec<String>,
}

impl View for Diag {
    type V = DiagView;

    closed spec fn view(&self) -> DiagView {
        DiagView { msg: self.msg@, span: self.span.deep_view(), notes: self.notes.deep_view() }
    }
}

impl Diag {
    /// Creates a new error diag with the given message.
    pub fn error(msg: String) -> (d: Self)
        ensures
            d@ == (DiagView { msg: msg@, span: None::<SpanView>, notes: Seq::<Seq<char>>::empty() }),
    {
        let d = Diag { msg, span: None, notes: Vec::new() };
        proof {
            assert(d@.notes =~= Seq::<Seq<char>>::empty());
        }
        d
    }

    /// Creates a new error diag with the given message and span.
    pub fn span_error(span: Span, msg: String) -> (d: Self)
        ensures
            d@ == (DiagView { msg: msg@, span: Some(span@), notes: Seq::<Seq<char>>::empty() }),
    {
        let d = Diag { msg, span: Some(span), notes: Vec::new() };
        proof {
            assert(d@.notes =~= Seq::<Seq<char>>::empty());
        }
        d
    }

    /// Adds the given message as note to this diag; builder-style, chainable.
    pub fn add_note(self, msg: String) -> (d: Self)
        ensures
            d@.msg == self@.msg,
            d@.span == self@.span,
            d@.notes == self@.notes.push(msg@),
    {
        let Diag { msg: m, span, mut notes } = self;
        notes.push(msg);
        let d = Diag { msg: m, span, notes };
        proof {
            assert(d@.notes =~= self@.notes.push(msg@));
        }
        d
    }

    /// The diagnostic's message.
    pub fn message(&self) -> (m: &String)
        ensures
            m@ == self@.msg,
    {
        &self.msg
    }

    /// The span the diagnostic is anchored to, if any.
    pub fn span(&self) -> (s: Option<Span>)
        ensures
            s.deep_view() == self@.span,
    {
        self.span
    }

    /// The diagnostic's notes, in the order they were added.
    pub fn notes(&self) -> (n: &Vec<String>)
        ensures
            n.deep_view() == self@.notes,
    {
        &self.notes
    }
}

} // verus!
