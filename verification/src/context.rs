//! The handler chain: the ordered steps that a message passes through
//! before and around the call of a service method.
//!
//! A context binds one message to a fixed sequence of handlers and a cursor
//! into it.  The cursor only moves forward.  It ends in one of two states,
//! both final: exhausted, when every handler has been called, and aborted,
//! when a handler has cut the chain short.

use crate::client::Client;
use crate::message::Message;
use crate::message::MessageView;
use crate::keyed::put;
use crate::keyed::value_of;
use crate::protocol::protocol::MetaDataView;
use vstd::prelude::*;

verus! {

/// Where a chain stands.
#[derive(Debug, Clone, Copy, PartialEq, Eq, Structural)]
pub enum Cursor {
    /// The handler at this place is the next to be called.
    Running(usize),
    /// Every handler has been called.
    Exhausted,
    /// A handler has aborted the chain.
    Aborted,
}

/// The cursor of a chain of `len` handlers before any has been called.
pub open spec fn start(len: nat) -> Cursor {
    if len == 0 {
        Cursor::Exhausted
    } else {
        Cursor::Running(0)
    }
}

/// The handler that `next` calls when the chain stands at `c`.
pub open spec fn dispatched(c: Cursor) -> Option<nat> {
    match c {
        Cursor::Running(i) => Some(i as nat),
        _ => None,
    }
}

/// The cursor after `next` has moved it, before the handler runs.
pub open spec fn advance(c: Cursor, len: nat) -> Cursor {
    match c {
        Cursor::Running(i) => if i + 1 < len {
            Cursor::Running((i + 1) as usize)
        } else {
            Cursor::Exhausted
        },
        _ => c,
    }
}

/// The cursor after `abort`.
pub open spec fn abort(c: Cursor) -> Cursor {
    match c {
        Cursor::Running(_) => Cursor::Aborted,
        _ => c,
    }
}

/// One step of a chain.  A handler may read and change the entries of the
/// message, call `next` to run the rest of the chain inside itself, and
/// call `abort`.
pub trait Handler<T: View>: Copy {
    /// What the handler does to a context.  A handler that says nothing
    /// may do anything.
    open spec fn effect(self, before: Context<T, Self>, after: Context<T, Self>) -> bool {
        true
    }

    fn handle(self, ctx: &mut Context<T, Self>)
        ensures
            self.effect(*old(ctx), *final(ctx)),
    ;
}

/// A message on its way through a chain of handlers.
pub struct Context<T, H> {
    client: Client,
    message: Message<T>,
    // The place of the handler to call next; past the end once all are called.
    index: usize,
    aborted: bool,
    handles: Vec<H>,
}

impl<T: View, H: Handler<T>> Context<T, H> {
    /// Where the chain stands.
    pub closed spec fn cursor(self) -> Cursor {
        if self.aborted {
            Cursor::Aborted
        } else if self.index < self.handles@.len() {
            Cursor::Running(self.index)
        } else {
            Cursor::Exhausted
        }
    }

    /// The handlers of the chain, in the order in which they are called.
    pub closed spec fn handlers(self) -> Seq<H> {
        self.handles@
    }

    /// The message.
    pub closed spec fn message(self) -> MessageView<T::V> {
        self.message@
    }

    /// The peer that the message came from.
    pub closed spec fn client(self) -> Client {
        self.client
    }

    /// The context that `next` hands to the handler it calls: this one with
    /// the cursor moved past that handler.
    pub closed spec fn stepped(self) -> Self {
        Context {
            client: self.client,
            message: self.message,
            index: (self.index + 1) as usize,
            aborted: self.aborted,
            handles: self.handles,
        }
    }

    /// A context for `message` with the chain `handlers`, none of them
    /// called yet.
    pub fn new(client: Client, message: Message<T>, handlers: Vec<H>) -> (ctx: Context<T, H>)
        ensures
            ctx.cursor() == start(handlers@.len()),
            ctx.handlers() == handlers@,
            ctx.message() == message@,
            ctx.client() == client,
    {
        Context { client: client, message: message, index: 0, aborted: false, handles: handlers }
    }

    /// Cuts the chain short: no handler is called for this message any
    /// more.  On a chain that has ended this changes nothing.
    #[inline]
    pub fn abort(&mut self)
        ensures
            final(self).cursor() == abort(old(self).cursor()),
            final(self).handlers() == old(self).handlers(),
            final(self).message() == old(self).message(),
            final(self).client() == old(self).client(),
            !(old(self).cursor() is Running) ==> *final(self) == *old(self),
    {
        if !self.aborted && self.index < self.handles.len() {
            self.aborted = true;
        }
    }

    /// Calls the next handler, if the chain has not ended.  The cursor is
    /// moved past the handler before it is called, so a handler that calls
    /// `next` itself continues the chain from there.  On a chain that has
    /// ended this changes nothing.
    #[inline]
    pub fn next(&mut self)
        ensures
            match old(self).cursor() {
                Cursor::Running(i) => old(self).handlers()[i as int].effect(
                    old(self).stepped(),
                    *final(self),
                ),
                _ => *final(self) == *old(self),
            },
    {
        if !self.aborted && self.index < self.handles.len() {
            let handler = self.handles[self.index];
            self.index = self.index + 1;
            handler.handle(self);
        }
    }

    /// Whether the chain has ended, exhausted or aborted.
    pub fn is_done(&self) -> (done: bool)
        ensures
            done == !(self.cursor() is Running),
    {
        self.aborted || self.index >= self.handles.len()
    }

    /// Whether a handler has aborted the chain.
    pub fn is_aborted(&self) -> (aborted: bool)
        ensures
            aborted == (self.cursor() is Aborted),
    {
        self.aborted
    }

    /// The value that the entries of the message give to the key `k`.
    #[inline]
    pub fn get(&self, k: &String) -> (r: Option<&String>)
        ensures
            match r {
                Some(v) => value_of(self.message().metadata.values, k@) == Some(v@),
                None => value_of(self.message().metadata.values, k@) is None,
            },
    {
        self.message.get(k)
    }

    /// Gives the key `k` the value `v` in the entries of the message and
    /// returns the value it had.  The chain stays where it stands.
    #[inline]
    pub fn set(&mut self, k: String, v: String) -> (r: Option<String>)
        ensures
            final(self).message() == (MessageView {
                metadata: MetaDataView {
                    values: put(old(self).message().metadata.values, k@, v@),
                    ..old(self).message().metadata
                },
                body: old(self).message().body,
            }),
            final(self).cursor() == old(self).cursor(),
            final(self).handlers() == old(self).handlers(),
            final(self).client() == old(self).client(),
            match r {
                Some(before) => value_of(old(self).message().metadata.values, k@) == Some(
                    before@,
                ),
                None => value_of(old(self).message().metadata.values, k@) is None,
            },
    {
        self.message.set(k, v)
    }

    /// What `stepped` does to the parts of a context.
    pub proof fn lemma_stepped(self)
        requires
            self.cursor() is Running,
        ensures
            self.stepped().cursor() == advance(self.cursor(), self.handlers().len()),
            self.stepped().handlers() == self.handlers(),
            self.stepped().message() == self.message(),
            self.stepped().client() == self.client(),
    {
        assert(self.handles.len() == self.handles@.len());
    }
}

// ---------------------------------------------------------------------------
// Laws of the cursor
// ---------------------------------------------------------------------------

/// The handlers that are called, in order, when `next` is called `steps`
/// times on a chain of `len` handlers that stands at `c`, where the handler
/// at place `i` calls `abort` exactly if `aborts(i)`.
pub open spec fn trace(c: Cursor, len: nat, aborts: spec_fn(nat) -> bool, steps: nat) -> Seq<nat>
    decreases steps,
{
    if steps == 0 {
        Seq::<nat>::empty()
    } else {
        match c {
            Cursor::Running(i) => {
                let moved = advance(c, len);
                let after = if aborts(i as nat) {
                    abort(moved)
                } else {
                    moved
                };
                seq![i as nat] + trace(after, len, aborts, (steps - 1) as nat)
            },
            _ => Seq::<nat>::empty(),
        }
    }
}

/// The two final states are final: on a chain that has ended, `next` calls
/// no handler and neither `next` nor `abort` moves the cursor.
pub proof fn lemma_final_states(c: Cursor, len: nat)
    requires
        !(c is Running),
    ensures
        dispatched(c) is None,
        advance(c, len) == c,
        abort(c) == c,
{
}

/// After `abort` no handler is called, however often `next` is called.
pub proof fn lemma_abort_ends_chain(c: Cursor, len: nat, aborts: spec_fn(nat) -> bool, steps: nat)
    ensures
        !(abort(c) is Running),
        c is Running ==> abort(c) == Cursor::Aborted,
        trace(abort(c), len, aborts, steps) == Seq::<nat>::empty(),
{
}

proof fn lemma_trace_from(i: nat, stop: nat, len: nat, aborts: spec_fn(nat) -> bool, steps: nat)
    requires
        i <= stop < len,
        len <= usize::MAX,
        steps >= stop - i + 1,
        forall|k: nat| i <= k < stop ==> !#[trigger] aborts(k),
        aborts(stop) || stop == len - 1,
    ensures
        trace(Cursor::Running(i as usize), len, aborts, steps) == Seq::new(
            (stop - i + 1) as nat,
            |k: int| (i + k) as nat,
        ),
    decreases stop - i,
{
    let c = Cursor::Running(i as usize);
    let moved = advance(c, len);
    let expected = Seq::new((stop - i + 1) as nat, |k: int| (i + k) as nat);
    if i == stop {
        let after = if aborts(i) {
            abort(moved)
        } else {
            moved
        };
        assert(!(after is Running));
        assert(trace(after, len, aborts, (steps - 1) as nat) =~= Seq::<nat>::empty());
        assert(trace(c, len, aborts, steps) =~= expected);
    } else {
        assert(moved == Cursor::Running((i + 1) as usize));
        lemma_trace_from(i + 1, stop, len, aborts, (steps - 1) as nat);
        let tail = Seq::new((stop - i) as nat, |k: int| (i + 1 + k) as nat);
        assert(trace(c, len, aborts, steps) == seq![i] + tail);
        assert(seq![i] + tail =~= expected);
    }
}

/// Chain control flow, without abort: when no handler aborts, all handlers
/// are called, each exactly once, in their order, and then none.
pub proof fn lemma_all_run_in_order(len: nat, aborts: spec_fn(nat) -> bool, steps: nat)
    requires
        len <= usize::MAX,
        steps >= len,
        forall|k: nat| k < len ==> !#[trigger] aborts(k),
    ensures
        trace(start(len), len, aborts, steps) == Seq::new(len, |k: int| k as nat),
{
    if len == 0 {
        assert(trace(start(len), len, aborts, steps) =~= Seq::new(len, |k: int| k as nat));
    } else {
        lemma_trace_from(0, (len - 1) as nat, len, aborts, steps);
        assert(Seq::new(len, |k: int| (0 + k) as nat) =~= Seq::new(len, |k: int| k as nat));
    }
}

/// Chain control flow, with abort: when the handler at place `stop` is the
/// first that aborts, the handlers up to and including it are called, in
/// their order, and no handler behind it ever is.
pub proof fn lemma_abort_stops_chain(len: nat, aborts: spec_fn(nat) -> bool, stop: nat, steps: nat)
    requires
        len <= usize::MAX,
        stop < len,
        steps > stop,
        aborts(stop),
        forall|k: nat| k < stop ==> !#[trigger] aborts(k),
    ensures
        trace(start(len), len, aborts, steps) == Seq::new(stop + 1, |k: int| k as nat),
{
    lemma_trace_from(0, stop, len, aborts, steps);
    assert(Seq::new((stop + 1) as nat, |k: int| (0 + k) as nat) =~= Seq::new(
        stop + 1,
        |k: int| k as nat,
    ));
}

} // verus!
