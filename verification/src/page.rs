//! The hand-over of the application's state from the server to the client:
//! the bootstrap script of a page, which holds the serialized state.

use crate::text::{chars_of, string_of};
use vstd::prelude::*;

verus! {

const SCRIPT_HEAD: &'static str =
    "
                          import init, { main } from '/pkg/client.js';
                          async function start() {
                            await init();
                            let app_state = String.raw`";

const SCRIPT_TAIL: &'static str =
    "`;
                            await main(app_state);
                          }
                          start();
                    ";

/// What stands for a backtick inside a template literal: a substitution
/// that evaluates to a backtick.
pub open spec fn backtick_escape() -> Seq<char> {
    seq!['$', '{', '"', '`', '"', '}']
}

/// `state` with every backtick replaced by `backtick_escape()`, so that it
/// can stand inside a template literal without ending it.
pub open spec fn escaped(state: Seq<char>) -> Seq<char>
    decreases state.len(),
{
    if state.len() == 0 {
        Seq::empty()
    } else if state.last() == '`' {
        escaped(state.drop_last()) + backtick_escape()
    } else {
        escaped(state.drop_last()).push(state.last())
    }
}

/// Whether every backtick of `text` stands inside a `backtick_escape()`: a
/// text of which this holds does not end the template literal around it.
pub open spec fn guarded(text: Seq<char>) -> bool {
    forall|i: int|
        0 <= i < text.len() && #[trigger] text[i] == '`' ==> {
            &&& 3 <= i
            &&& i + 2 < text.len()
            &&& text.subrange(i - 3, i + 3) == backtick_escape()
        }
}

/// An escaped state holds no backtick but those of its escapes.
pub proof fn lemma_escaped_guarded(state: Seq<char>)
    ensures
        guarded(escaped(state)),
    decreases state.len(),
{
    if state.len() > 0 {
        let init = escaped(state.drop_last());
        let all = escaped(state);
        lemma_escaped_guarded(state.drop_last());
        assert forall|i: int| 0 <= i < all.len() && #[trigger] all[i] == '`' implies {
            &&& 3 <= i
            &&& i + 2 < all.len()
            &&& all.subrange(i - 3, i + 3) == backtick_escape()
        } by {
            if i < init.len() {
                assert(init[i] == '`');
                assert(all.subrange(i - 3, i + 3) =~= init.subrange(i - 3, i + 3));
            } else {
                assert(state.last() == '`');
                assert(i == init.len() + 3);
                assert(all.subrange(i - 3, i + 3) =~= backtick_escape());
            }
        }
    }
}

/// The text before the state in the bootstrap script: it loads the client
/// and opens the template literal that holds the state.
pub open spec fn script_head() -> Seq<char> {
    "
                          import init, { main } from '/pkg/client.js';
                          async function start() {
                            await init();
                            let app_state = String.raw`"@
}

/// The text after the state in the bootstrap script: it closes the
/// template literal and starts the client on the state.
pub open spec fn script_tail() -> Seq<char> {
    "`;
                            await main(app_state);
                          }
                          start();
                    "@
}

/// Appends `state` to `out`, every backtick replaced by its escape.
pub fn push_escaped(out: &mut Vec<char>, state: &str)
    ensures
        final(out)@ == old(out)@ + escaped(state@),
{
    for c in it: state.chars()
        invariant
            it.seq() == state@,
            out@ == old(out)@ + escaped(it.seq().take(it.index() as int)),
    {
        proof {
            let done = it.seq().take(it.index() as int);
            let next = it.seq().take(it.index() + 1);
            assert(next.drop_last() =~= done);
            assert(next.last() == c);
        }
        let ghost before = out@;
        if c == '`' {
            out.push('$');
            out.push('{');
            out.push('"');
            out.push('`');
            out.push('"');
            out.push('}');
            assert(out@ =~= before + backtick_escape());
        } else {
            out.push(c);
        }
        assert(out@ =~= old(out)@ + escaped(it.seq().take(it.index() + 1)));
    }
    assert(state@.take(state@.len() as int) =~= state@);
}

/// The serialized state, ready to stand inside a template literal.
pub fn escape_state(serialized_state: &str) -> (out: String)
    ensures
        out@ == escaped(serialized_state@),
{
    let mut chars: Vec<char> = Vec::new();
    push_escaped(&mut chars, serialized_state);
    assert(chars@ =~= escaped(serialized_state@));
    string_of(&chars)
}

/// The bootstrap script of a page: it hands the serialized state of the
/// application, as the server computed it, to the client.
pub fn bootstrap_script(serialized_state: &str) -> (out: String)
    ensures
        out@ == script_head() + escaped(serialized_state@) + script_tail(),
{
    let mut chars = chars_of(SCRIPT_HEAD);
    push_escaped(&mut chars, serialized_state);
    let mut tail = chars_of(SCRIPT_TAIL);
    chars.append(&mut tail);
    assert(chars@ =~= script_head() + escaped(serialized_state@) + script_tail());
    string_of(&chars)
}

} // verus!
