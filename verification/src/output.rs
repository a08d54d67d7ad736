//! The two output sinks of the calculator, recorded as data.
//!
//! The calculator writes to a value sink (computed results, the `v`/`V`/`p`
//! commands) and a diagnostic sink (prompts, warnings, help, reported
//! errors).  The core records what was emitted; the host program renders the
//! diagnostic events and forwards both sinks to its own outputs.

use vstd::prelude::*;
use crate::errors::CalcError;

verus! {

/// One event for the diagnostic sink.
#[derive(Clone, Copy, Debug, PartialEq, Eq, Structural)]
pub enum Diag {
    /// A fresh prompt marker.
    Prompt,
    /// The warning that an `i` command asked for a radix above the maximum;
    /// the input radix stays as it was.
    RadixWarning,
    /// A help request whose subject is a whitespace or NUL character: the
    /// help command wants to be told which command to describe.
    HelpUsage(char),
    /// A help request for the given command character; the host looks the
    /// descriptive text up in its static table.
    Help(char),
    /// A non-fatal command error, reported by the evaluation loop before it
    /// goes on with the next character.
    CommandError(CalcError),
}

/// Everything the calculator has emitted so far, per sink and in order.
pub struct Outputs {
    /// Lines for the value sink, one entry per `v`/`p` print or `V` listing.
    pub values: Vec<String>,
    /// Events for the diagnostic sink.
    pub diags: Vec<Diag>,
}

impl Outputs {
    /// Empty sinks: nothing emitted yet.
    pub fn new() -> (r: Self)
        ensures
            r.values@ == Seq::<String>::empty(),
            r.diags@ == Seq::<Diag>::empty(),
    {
        Outputs { values: Vec::new(), diags: Vec::new() }
    }

    /// Appends one entry to the value sink.
    pub fn push_value(&mut self, text: String)
        ensures
            final(self).values@ == old(self).values@.push(text),
            final(self).diags@ == old(self).diags@,
    {
        self.values.push(text);
    }

    /// Appends one event to the diagnostic sink.
    pub fn push_diag(&mut self, d: Diag)
        ensures
            final(self).values@ == old(self).values@,
            final(self).diags@ == old(self).diags@.push(d),
    {
        self.diags.push(d);
    }
}

/// A sink only grows: appending keeps everything already emitted in place.
pub broadcast proof fn lemma_prefix_push<A>(s: Seq<A>, x: A)
    ensures
        #[trigger] s.is_prefix_of(s.push(x)),
{
    assert(s.push(x).subrange(0, s.len() as int) =~= s);
}

/// Every sink is a prefix of itself.
pub broadcast proof fn lemma_prefix_refl<A>(s: Seq<A>)
    ensures
        #[trigger] s.is_prefix_of(s),
{
    assert(s.subrange(0, s.len() as int) =~= s);
}

/// Prefixes chain: what held of the sink before two extensions still holds
/// after both.
pub proof fn lemma_prefix_trans<A>(a: Seq<A>, b: Seq<A>, c: Seq<A>)
    requires
        a.is_prefix_of(b),
        b.is_prefix_of(c),
    ensures
        a.is_prefix_of(c),
{
    assert(a =~= c.subrange(0, a.len() as int));
}

} // verus!
