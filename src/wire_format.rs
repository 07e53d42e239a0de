//! How commands are written on the wire, and that reading one back gives
//! the same command.
use vstd::prelude::*;

use crate::numbers::{decimal, lemma_decimal_round_trip, push_decimal};
use crate::parser::{
    is_tube_byte, is_tube_name, lemma_space_index, parse_line, space_index, split_words, verb_from,
};
use crate::encoder::push_slice;
use crate::decoder::{decode_step, first_crlf_within, is_crlf_at, Decoder};
use crate::protocol::{Command, CommandModel, EventModel, Response, Verb};

verus! {

/// Words joined by single spaces.
pub open spec fn join_words(ws: Seq<Seq<u8>>) -> Seq<u8>
    decreases ws.len(),
{
    if ws.len() == 0 {
        Seq::empty()
    } else if ws.len() == 1 {
        ws[0]
    } else {
        ws[0] + seq![32u8] + join_words(ws.drop_first())
    }
}

pub open spec fn space_free(w: Seq<u8>) -> bool {
    forall|k: int| 0 <= k < w.len() ==> #[trigger] w[k] != 32
}

/// The words of a command: its keyword, then its arguments.
pub open spec fn command_words(c: CommandModel) -> Seq<Seq<u8>> {
    match c {
        CommandModel::Put { pri, delay, ttr, n_bytes } => seq![Verb::Put.spec_name(), decimal(pri as nat), decimal(delay as nat), decimal(ttr as nat), decimal(n_bytes as nat)],
        CommandModel::Reserve => seq![Verb::Reserve.spec_name()],
        CommandModel::ReserveWithTimeout { timeout } => seq![Verb::ReserveWithTimeout.spec_name(), decimal(timeout as nat)],
        CommandModel::ReserveJob { id } => seq![Verb::ReserveJob.spec_name(), decimal(id as nat)],
        CommandModel::Release { id, pri, delay } => seq![Verb::Release.spec_name(), decimal(id as nat), decimal(pri as nat), decimal(delay as nat)],
        CommandModel::Delete { id } => seq![Verb::Delete.spec_name(), decimal(id as nat)],
        CommandModel::Bury { id, pri } => seq![Verb::Bury.spec_name(), decimal(id as nat), decimal(pri as nat)],
        CommandModel::Touch { id } => seq![Verb::Touch.spec_name(), decimal(id as nat)],
        CommandModel::Watch { tube } => seq![Verb::Watch.spec_name(), tube],
        CommandModel::Ignore { tube } => seq![Verb::Ignore.spec_name(), tube],
        CommandModel::Peek { id } => seq![Verb::Peek.spec_name(), decimal(id as nat)],
        CommandModel::PeekReady => seq![Verb::PeekReady.spec_name()],
        CommandModel::PeekDelayed => seq![Verb::PeekDelayed.spec_name()],
        CommandModel::PeekBuried => seq![Verb::PeekBuried.spec_name()],
        CommandModel::Kick { bound } => seq![Verb::Kick.spec_name(), decimal(bound as nat)],
        CommandModel::KickJob { id } => seq![Verb::KickJob.spec_name(), decimal(id as nat)],
        CommandModel::StatsJob { id } => seq![Verb::StatsJob.spec_name(), decimal(id as nat)],
        CommandModel::StatsTube { tube } => seq![Verb::StatsTube.spec_name(), tube],
        CommandModel::StatsServer => seq![Verb::StatsServer.spec_name()],
        CommandModel::ListTubes => seq![Verb::ListTubes.spec_name()],
        CommandModel::ListTubeUsed => seq![Verb::ListTubeUsed.spec_name()],
        CommandModel::ListTubesWatched => seq![Verb::ListTubesWatched.spec_name()],
        CommandModel::Quit => seq![Verb::Quit.spec_name()],
        CommandModel::PauseTube { tube, delay } => seq![Verb::PauseTube.spec_name(), tube, decimal(delay as nat)],
        CommandModel::Use { tube } => seq![Verb::Use.spec_name(), tube],
    }
}

/// The line of a command, without its CRLF.
pub open spec fn command_line(c: CommandModel) -> Seq<u8> {
    join_words(command_words(c))
}

/// The command's tube names, if any, are valid.
pub open spec fn command_ok(c: CommandModel) -> bool {
    match c {
        CommandModel::Watch { tube, .. } => is_tube_name(tube),
        CommandModel::Ignore { tube, .. } => is_tube_name(tube),
        CommandModel::StatsTube { tube, .. } => is_tube_name(tube),
        CommandModel::PauseTube { tube, .. } => is_tube_name(tube),
        CommandModel::Use { tube, .. } => is_tube_name(tube),
        _ => true,
    }
}

proof fn lemma_split_join(ws: Seq<Seq<u8>>)
    requires
        ws.len() >= 1,
        forall|i: int| 0 <= i < ws.len() ==> space_free(#[trigger] ws[i]),
    ensures
        split_words(join_words(ws)) == ws,
    decreases ws.len(),
{
    if ws.len() == 1 {
        let w = ws[0];
        assert(space_free(w));
        lemma_space_index(w, w.len() as int);
        assert(split_words(w) == seq![w]);
        assert(seq![w] =~= ws);
    } else {
        let w = ws[0];
        let rest = ws.drop_first();
        let s = join_words(ws);
        assert(space_free(w));
        assert forall|i: int| 0 <= i < rest.len() implies space_free(#[trigger] rest[i]) by {
            assert(rest[i] == ws[i + 1]);
        }
        lemma_split_join(rest);
        assert forall|k: int| 0 <= k < w.len() implies s[k] != 32 by {
            assert(s[k] == w[k]);
        }
        lemma_space_index(s, w.len() as int);
        assert(s.subrange(0, w.len() as int) =~= w);
        assert(s.subrange(w.len() as int + 1, s.len() as int) =~= join_words(rest));
        assert(split_words(s) =~= seq![w] + split_words(join_words(rest)));
        assert(seq![w] + rest =~= ws);
    }
}

proof fn lemma_decimal_space_free(n: nat)
    ensures
        space_free(decimal(n)),
{
    lemma_decimal_round_trip(n);
}

proof fn lemma_tube_space_free(t: Seq<u8>)
    requires
        is_tube_name(t),
    ensures
        space_free(t),
{
    assert forall|k: int| 0 <= k < t.len() implies #[trigger] t[k] != 32 by {
        assert(is_tube_byte(t[k]));
    }
}

proof fn lemma_verb_names(v: Verb)
    ensures
        verb_from(v.spec_name()) == Some(v),
        space_free(v.spec_name()),
{
    assert(Verb::Put.spec_name().len() == 3);
    assert(Verb::Reserve.spec_name().len() == 7);
    assert(Verb::ReserveWithTimeout.spec_name().len() == 20);
    assert(Verb::ReserveJob.spec_name().len() == 11);
    assert(Verb::Release.spec_name().len() == 7);
    assert(Verb::Delete.spec_name().len() == 6);
    assert(Verb::Bury.spec_name().len() == 4);
    assert(Verb::Touch.spec_name().len() == 5);
    assert(Verb::Watch.spec_name().len() == 5);
    assert(Verb::Ignore.spec_name().len() == 6);
    assert(Verb::Peek.spec_name().len() == 4);
    assert(Verb::PeekReady.spec_name().len() == 10);
    assert(Verb::PeekDelayed.spec_name().len() == 12);
    assert(Verb::PeekBuried.spec_name().len() == 11);
    assert(Verb::Kick.spec_name().len() == 4);
    assert(Verb::KickJob.spec_name().len() == 8);
    assert(Verb::StatsJob.spec_name().len() == 9);
    assert(Verb::StatsTube.spec_name().len() == 10);
    assert(Verb::StatsServer.spec_name().len() == 5);
    assert(Verb::ListTubes.spec_name().len() == 10);
    assert(Verb::ListTubeUsed.spec_name().len() == 14);
    assert(Verb::ListTubesWatched.spec_name().len() == 18);
    assert(Verb::Quit.spec_name().len() == 4);
    assert(Verb::PauseTube.spec_name().len() == 10);
    assert(Verb::Use.spec_name().len() == 3);
    match v {
        Verb::Put => {
            assert(verb_from(Verb::Put.spec_name()) == Some(Verb::Put));
        },
        Verb::Reserve => {
            assert(verb_from(Verb::Reserve.spec_name()) == Some(Verb::Reserve));
        },
        Verb::ReserveWithTimeout => {
            assert(verb_from(Verb::ReserveWithTimeout.spec_name()) == Some(Verb::ReserveWithTimeout));
        },
        Verb::ReserveJob => {
            assert(verb_from(Verb::ReserveJob.spec_name()) == Some(Verb::ReserveJob));
        },
        Verb::Release => {
            assert(Verb::Release.spec_name()[2] != Verb::Reserve.spec_name()[2]);
            assert(verb_from(Verb::Release.spec_name()) == Some(Verb::Release));
        },
        Verb::Delete => {
            assert(verb_from(Verb::Delete.spec_name()) == Some(Verb::Delete));
        },
        Verb::Bury => {
            assert(verb_from(Verb::Bury.spec_name()) == Some(Verb::Bury));
        },
        Verb::Touch => {
            assert(verb_from(Verb::Touch.spec_name()) == Some(Verb::Touch));
        },
        Verb::Watch => {
            assert(Verb::Watch.spec_name()[0] != Verb::Touch.spec_name()[0]);
            assert(verb_from(Verb::Watch.spec_name()) == Some(Verb::Watch));
        },
        Verb::Ignore => {
            assert(Verb::Ignore.spec_name()[0] != Verb::Delete.spec_name()[0]);
            assert(verb_from(Verb::Ignore.spec_name()) == Some(Verb::Ignore));
        },
        Verb::Peek => {
            assert(Verb::Peek.spec_name()[0] != Verb::Bury.spec_name()[0]);
            assert(verb_from(Verb::Peek.spec_name()) == Some(Verb::Peek));
        },
        Verb::PeekReady => {
            assert(verb_from(Verb::PeekReady.spec_name()) == Some(Verb::PeekReady));
        },
        Verb::PeekDelayed => {
            assert(verb_from(Verb::PeekDelayed.spec_name()) == Some(Verb::PeekDelayed));
        },
        Verb::PeekBuried => {
            assert(Verb::PeekBuried.spec_name()[0] != Verb::ReserveJob.spec_name()[0]);
            assert(verb_from(Verb::PeekBuried.spec_name()) == Some(Verb::PeekBuried));
        },
        Verb::Kick => {
            assert(Verb::Kick.spec_name()[0] != Verb::Bury.spec_name()[0]);
            assert(Verb::Kick.spec_name()[0] != Verb::Peek.spec_name()[0]);
            assert(verb_from(Verb::Kick.spec_name()) == Some(Verb::Kick));
        },
        Verb::KickJob => {
            assert(verb_from(Verb::KickJob.spec_name()) == Some(Verb::KickJob));
        },
        Verb::StatsJob => {
            assert(verb_from(Verb::StatsJob.spec_name()) == Some(Verb::StatsJob));
        },
        Verb::StatsTube => {
            assert(Verb::StatsTube.spec_name()[0] != Verb::PeekReady.spec_name()[0]);
            assert(verb_from(Verb::StatsTube.spec_name()) == Some(Verb::StatsTube));
        },
        Verb::StatsServer => {
            assert(Verb::StatsServer.spec_name()[0] != Verb::Touch.spec_name()[0]);
            assert(Verb::StatsServer.spec_name()[0] != Verb::Watch.spec_name()[0]);
            assert(verb_from(Verb::StatsServer.spec_name()) == Some(Verb::StatsServer));
        },
        Verb::ListTubes => {
            assert(Verb::ListTubes.spec_name()[0] != Verb::PeekReady.spec_name()[0]);
            assert(Verb::ListTubes.spec_name()[0] != Verb::StatsTube.spec_name()[0]);
            assert(verb_from(Verb::ListTubes.spec_name()) == Some(Verb::ListTubes));
        },
        Verb::ListTubeUsed => {
            assert(verb_from(Verb::ListTubeUsed.spec_name()) == Some(Verb::ListTubeUsed));
        },
        Verb::ListTubesWatched => {
            assert(verb_from(Verb::ListTubesWatched.spec_name()) == Some(Verb::ListTubesWatched));
        },
        Verb::Quit => {
            assert(Verb::Quit.spec_name()[0] != Verb::Bury.spec_name()[0]);
            assert(Verb::Quit.spec_name()[0] != Verb::Peek.spec_name()[0]);
            assert(Verb::Quit.spec_name()[0] != Verb::Kick.spec_name()[0]);
            assert(verb_from(Verb::Quit.spec_name()) == Some(Verb::Quit));
        },
        Verb::PauseTube => {
            assert(Verb::PauseTube.spec_name()[1] != Verb::PeekReady.spec_name()[1]);
            assert(Verb::PauseTube.spec_name()[0] != Verb::StatsTube.spec_name()[0]);
            assert(Verb::PauseTube.spec_name()[0] != Verb::ListTubes.spec_name()[0]);
            assert(verb_from(Verb::PauseTube.spec_name()) == Some(Verb::PauseTube));
        },
        Verb::Use => {
            assert(Verb::Use.spec_name()[0] != Verb::Put.spec_name()[0]);
            assert(verb_from(Verb::Use.spec_name()) == Some(Verb::Use));
        },
    }
}

/// A command with valid tube names, written on the wire and read back, is
/// the same command.
pub proof fn lemma_command_round_trip(c: CommandModel)
    requires
        command_ok(c),
    ensures
        parse_line(command_line(c)) == Ok::<CommandModel, Response>(c),
{
    let ws = command_words(c);
    lemma_verb_names(c.verb());
    match c {
        CommandModel::Put { pri, delay, ttr, n_bytes } => {
            lemma_decimal_round_trip(pri as nat);
            lemma_decimal_space_free(pri as nat);
            lemma_decimal_round_trip(delay as nat);
            lemma_decimal_space_free(delay as nat);
            lemma_decimal_round_trip(ttr as nat);
            lemma_decimal_space_free(ttr as nat);
            lemma_decimal_round_trip(n_bytes as nat);
            lemma_decimal_space_free(n_bytes as nat);
        },
        CommandModel::Reserve => {
        },
        CommandModel::ReserveWithTimeout { timeout } => {
            lemma_decimal_round_trip(timeout as nat);
            lemma_decimal_space_free(timeout as nat);
        },
        CommandModel::ReserveJob { id } => {
            lemma_decimal_round_trip(id as nat);
            lemma_decimal_space_free(id as nat);
        },
        CommandModel::Release { id, pri, delay } => {
            lemma_decimal_round_trip(id as nat);
            lemma_decimal_space_free(id as nat);
            lemma_decimal_round_trip(pri as nat);
            lemma_decimal_space_free(pri as nat);
            lemma_decimal_round_trip(delay as nat);
            lemma_decimal_space_free(delay as nat);
        },
        CommandModel::Delete { id } => {
            lemma_decimal_round_trip(id as nat);
            lemma_decimal_space_free(id as nat);
        },
        CommandModel::Bury { id, pri } => {
            lemma_decimal_round_trip(id as nat);
            lemma_decimal_space_free(id as nat);
            lemma_decimal_round_trip(pri as nat);
            lemma_decimal_space_free(pri as nat);
        },
        CommandModel::Touch { id } => {
            lemma_decimal_round_trip(id as nat);
            lemma_decimal_space_free(id as nat);
        },
        CommandModel::Watch { tube } => {
            lemma_tube_space_free(tube);
        },
        CommandModel::Ignore { tube } => {
            lemma_tube_space_free(tube);
        },
        CommandModel::Peek { id } => {
            lemma_decimal_round_trip(id as nat);
            lemma_decimal_space_free(id as nat);
        },
        CommandModel::PeekReady => {
        },
        CommandModel::PeekDelayed => {
        },
        CommandModel::PeekBuried => {
        },
        CommandModel::Kick { bound } => {
            lemma_decimal_round_trip(bound as nat);
            lemma_decimal_space_free(bound as nat);
        },
        CommandModel::KickJob { id } => {
            lemma_decimal_round_trip(id as nat);
            lemma_decimal_space_free(id as nat);
        },
        CommandModel::StatsJob { id } => {
            lemma_decimal_round_trip(id as nat);
            lemma_decimal_space_free(id as nat);
        },
        CommandModel::StatsTube { tube } => {
            lemma_tube_space_free(tube);
        },
        CommandModel::StatsServer => {
        },
        CommandModel::ListTubes => {
        },
        CommandModel::ListTubeUsed => {
        },
        CommandModel::ListTubesWatched => {
        },
        CommandModel::Quit => {
        },
        CommandModel::PauseTube { tube, delay } => {
            lemma_tube_space_free(tube);
            lemma_decimal_round_trip(delay as nat);
            lemma_decimal_space_free(delay as nat);
        },
        CommandModel::Use { tube } => {
            lemma_tube_space_free(tube);
        },
    }
    assert(ws[0] == c.verb().spec_name());
    assert forall|i: int| 0 <= i < ws.len() implies space_free(#[trigger] ws[i]) by {
    }
    lemma_split_join(ws);
}



proof fn lemma_join2(a: Seq<u8>, b: Seq<u8>)
    ensures
        join_words(seq![a, b]) == a + seq![32u8] + b,
{
    assert(seq![a, b].drop_first() =~= seq![b]);
    assert(seq![a, b][0] == a);
    assert(join_words(seq![b]) == b);
}

proof fn lemma_join3(a: Seq<u8>, b: Seq<u8>, c: Seq<u8>)
    ensures
        join_words(seq![a, b, c]) == a + seq![32u8] + b + seq![32u8] + c,
{
    assert(seq![a, b, c].drop_first() =~= seq![b, c]);
    lemma_join2(b, c);
    assert(a + seq![32u8] + (b + seq![32u8] + c) =~= a + seq![32u8] + b + seq![32u8] + c);
}

proof fn lemma_join4(a: Seq<u8>, b: Seq<u8>, c: Seq<u8>, d: Seq<u8>)
    ensures
        join_words(seq![a, b, c, d]) == a + seq![32u8] + b + seq![32u8] + c + seq![32u8] + d,
{
    assert(seq![a, b, c, d].drop_first() =~= seq![b, c, d]);
    lemma_join3(b, c, d);
    assert(a + seq![32u8] + (b + seq![32u8] + c + seq![32u8] + d) =~= a + seq![32u8] + b + seq![32u8] + c + seq![32u8] + d);
}

proof fn lemma_join5(a: Seq<u8>, b: Seq<u8>, c: Seq<u8>, d: Seq<u8>, e: Seq<u8>)
    ensures
        join_words(seq![a, b, c, d, e]) == a + seq![32u8] + b + seq![32u8] + c + seq![32u8] + d + seq![32u8] + e,
{
    assert(seq![a, b, c, d, e].drop_first() =~= seq![b, c, d, e]);
    lemma_join4(b, c, d, e);
    assert(a + seq![32u8] + (b + seq![32u8] + c + seq![32u8] + d + seq![32u8] + e) =~= a + seq![32u8] + b + seq![32u8] + c
        + seq![32u8] + d + seq![32u8] + e);
}

impl Command {
    /// Appends the command's line and its CRLF, as a client writes it.
    #[verifier::rlimit(100)]
    pub fn encode(&self, dst: &mut Vec<u8>)
        ensures
            final(dst)@ == old(dst)@ + command_line(self@) + seq![13u8, 10u8],
    {
        let ghost d0 = dst@;
        match self {
            Command::Put { pri, delay, ttr, n_bytes } => {
                push_slice(dst, &[112, 117, 116]);
                dst.push(32);
                push_decimal(*pri as u64, dst);
                dst.push(32);
                push_decimal(*delay as u64, dst);
                dst.push(32);
                push_decimal(*ttr as u64, dst);
                dst.push(32);
                push_decimal(*n_bytes as u64, dst);
                push_slice(dst, &[13, 10]);
                proof {
                    lemma_join5(Verb::Put.spec_name(), decimal(*pri as nat), decimal(*delay as nat), decimal(*ttr as nat), decimal(*n_bytes as nat));
                    assert(dst@ =~= d0 + command_line(self@) + seq![13u8, 10u8]);
                }
            },
            Command::Reserve => {
                push_slice(dst, &[114, 101, 115, 101, 114, 118, 101]);
                push_slice(dst, &[13, 10]);
                proof {
                    assert(join_words(seq![Verb::Reserve.spec_name()]) == Verb::Reserve.spec_name());
                    assert(dst@ =~= d0 + command_line(self@) + seq![13u8, 10u8]);
                }
            },
            Command::ReserveWithTimeout { timeout } => {
                push_slice(dst, &[114, 101, 115, 101, 114, 118, 101, 45, 119, 105, 116, 104, 45, 116, 105, 109, 101, 111, 117, 116]);
                dst.push(32);
                push_decimal(*timeout as u64, dst);
                push_slice(dst, &[13, 10]);
                proof {
                    lemma_join2(Verb::ReserveWithTimeout.spec_name(), decimal(*timeout as nat));
                    assert(dst@ =~= d0 + command_line(self@) + seq![13u8, 10u8]);
                }
            },
            Command::ReserveJob { id } => {
                push_slice(dst, &[114, 101, 115, 101, 114, 118, 101, 45, 106, 111, 98]);
                dst.push(32);
                push_decimal(*id as u64, dst);
                push_slice(dst, &[13, 10]);
                proof {
                    lemma_join2(Verb::ReserveJob.spec_name(), decimal(*id as nat));
                    assert(dst@ =~= d0 + command_line(self@) + seq![13u8, 10u8]);
                }
            },
            Command::Release { id, pri, delay } => {
                push_slice(dst, &[114, 101, 108, 101, 97, 115, 101]);
                dst.push(32);
                push_decimal(*id as u64, dst);
                dst.push(32);
                push_decimal(*pri as u64, dst);
                dst.push(32);
                push_decimal(*delay as u64, dst);
                push_slice(dst, &[13, 10]);
                proof {
                    lemma_join4(Verb::Release.spec_name(), decimal(*id as nat), decimal(*pri as nat), decimal(*delay as nat));
                    assert(dst@ =~= d0 + command_line(self@) + seq![13u8, 10u8]);
                }
            },
            Command::Delete { id } => {
                push_slice(dst, &[100, 101, 108, 101, 116, 101]);
                dst.push(32);
                push_decimal(*id as u64, dst);
                push_slice(dst, &[13, 10]);
                proof {
                    lemma_join2(Verb::Delete.spec_name(), decimal(*id as nat));
                    assert(dst@ =~= d0 + command_line(self@) + seq![13u8, 10u8]);
                }
            },
            Command::Bury { id, pri } => {
                push_slice(dst, &[98, 117, 114, 121]);
                dst.push(32);
                push_decimal(*id as u64, dst);
                dst.push(32);
                push_decimal(*pri as u64, dst);
                push_slice(dst, &[13, 10]);
                proof {
                    lemma_join3(Verb::Bury.spec_name(), decimal(*id as nat), decimal(*pri as nat));
                    assert(dst@ =~= d0 + command_line(self@) + seq![13u8, 10u8]);
                }
            },
            Command::Touch { id } => {
                push_slice(dst, &[116, 111, 117, 99, 104]);
                dst.push(32);
                push_decimal(*id as u64, dst);
                push_slice(dst, &[13, 10]);
                proof {
                    lemma_join2(Verb::Touch.spec_name(), decimal(*id as nat));
                    assert(dst@ =~= d0 + command_line(self@) + seq![13u8, 10u8]);
                }
            },
            Command::Watch { tube } => {
                push_slice(dst, &[119, 97, 116, 99, 104]);
                dst.push(32);
                push_slice(dst, tube.as_slice());
                push_slice(dst, &[13, 10]);
                proof {
                    lemma_join2(Verb::Watch.spec_name(), tube@);
                    assert(dst@ =~= d0 + command_line(self@) + seq![13u8, 10u8]);
                }
            },
            Command::Ignore { tube } => {
                push_slice(dst, &[105, 103, 110, 111, 114, 101]);
                dst.push(32);
                push_slice(dst, tube.as_slice());
                push_slice(dst, &[13, 10]);
                proof {
                    lemma_join2(Verb::Ignore.spec_name(), tube@);
                    assert(dst@ =~= d0 + command_line(self@) + seq![13u8, 10u8]);
                }
            },
            Command::Peek { id } => {
                push_slice(dst, &[112, 101, 101, 107]);
                dst.push(32);
                push_decimal(*id as u64, dst);
                push_slice(dst, &[13, 10]);
                proof {
                    lemma_join2(Verb::Peek.spec_name(), decimal(*id as nat));
                    assert(dst@ =~= d0 + command_line(self@) + seq![13u8, 10u8]);
                }
            },
            Command::PeekReady => {
                push_slice(dst, &[112, 101, 101, 107, 45, 114, 101, 97, 100, 121]);
                push_slice(dst, &[13, 10]);
                proof {
                    assert(join_words(seq![Verb::PeekReady.spec_name()]) == Verb::PeekReady.spec_name());
                    assert(dst@ =~= d0 + command_line(self@) + seq![13u8, 10u8]);
                }
            },
            Command::PeekDelayed => {
                push_slice(dst, &[112, 101, 101, 107, 45, 100, 101, 108, 97, 121, 101, 100]);
                push_slice(dst, &[13, 10]);
                proof {
                    assert(join_words(seq![Verb::PeekDelayed.spec_name()]) == Verb::PeekDelayed.spec_name());
                    assert(dst@ =~= d0 + command_line(self@) + seq![13u8, 10u8]);
                }
            },
            Command::PeekBuried => {
                push_slice(dst, &[112, 101, 101, 107, 45, 98, 117, 114, 105, 101, 100]);
                push_slice(dst, &[13, 10]);
                proof {
                    assert(join_words(seq![Verb::PeekBuried.spec_name()]) == Verb::PeekBuried.spec_name());
                    assert(dst@ =~= d0 + command_line(self@) + seq![13u8, 10u8]);
                }
            },
            Command::Kick { bound } => {
                push_slice(dst, &[107, 105, 99, 107]);
                dst.push(32);
                push_decimal(*bound as u64, dst);
                push_slice(dst, &[13, 10]);
                proof {
                    lemma_join2(Verb::Kick.spec_name(), decimal(*bound as nat));
                    assert(dst@ =~= d0 + command_line(self@) + seq![13u8, 10u8]);
                }
            },
            Command::KickJob { id } => {
                push_slice(dst, &[107, 105, 99, 107, 45, 106, 111, 98]);
                dst.push(32);
                push_decimal(*id as u64, dst);
                push_slice(dst, &[13, 10]);
                proof {
                    lemma_join2(Verb::KickJob.spec_name(), decimal(*id as nat));
                    assert(dst@ =~= d0 + command_line(self@) + seq![13u8, 10u8]);
                }
            },
            Command::StatsJob { id } => {
                push_slice(dst, &[115, 116, 97, 116, 115, 45, 106, 111, 98]);
                dst.push(32);
                push_decimal(*id as u64, dst);
                push_slice(dst, &[13, 10]);
                proof {
                    lemma_join2(Verb::StatsJob.spec_name(), decimal(*id as nat));
                    assert(dst@ =~= d0 + command_line(self@) + seq![13u8, 10u8]);
                }
            },
            Command::StatsTube { tube } => {
                push_slice(dst, &[115, 116, 97, 116, 115, 45, 116, 117, 98, 101]);
                dst.push(32);
                push_slice(dst, tube.as_slice());
                push_slice(dst, &[13, 10]);
                proof {
                    lemma_join2(Verb::StatsTube.spec_name(), tube@);
                    assert(dst@ =~= d0 + command_line(self@) + seq![13u8, 10u8]);
                }
            },
            Command::StatsServer => {
                push_slice(dst, &[115, 116, 97, 116, 115]);
                push_slice(dst, &[13, 10]);
                proof {
                    assert(join_words(seq![Verb::StatsServer.spec_name()]) == Verb::StatsServer.spec_name());
                    assert(dst@ =~= d0 + command_line(self@) + seq![13u8, 10u8]);
                }
            },
            Command::ListTubes => {
                push_slice(dst, &[108, 105, 115, 116, 45, 116, 117, 98, 101, 115]);
                push_slice(dst, &[13, 10]);
                proof {
                    assert(join_words(seq![Verb::ListTubes.spec_name()]) == Verb::ListTubes.spec_name());
                    assert(dst@ =~= d0 + command_line(self@) + seq![13u8, 10u8]);
                }
            },
            Command::ListTubeUsed => {
                push_slice(dst, &[108, 105, 115, 116, 45, 116, 117, 98, 101, 45, 117, 115, 101, 100]);
                push_slice(dst, &[13, 10]);
                proof {
                    assert(join_words(seq![Verb::ListTubeUsed.spec_name()]) == Verb::ListTubeUsed.spec_name());
                    assert(dst@ =~= d0 + command_line(self@) + seq![13u8, 10u8]);
                }
            },
            Command::ListTubesWatched => {
                push_slice(dst, &[108, 105, 115, 116, 45, 116, 117, 98, 101, 115, 45, 119, 97, 116, 99, 104, 101, 100]);
                push_slice(dst, &[13, 10]);
                proof {
                    assert(join_words(seq![Verb::ListTubesWatched.spec_name()]) == Verb::ListTubesWatched.spec_name());
                    assert(dst@ =~= d0 + command_line(self@) + seq![13u8, 10u8]);
                }
            },
            Command::Quit => {
                push_slice(dst, &[113, 117, 105, 116]);
                push_slice(dst, &[13, 10]);
                proof {
                    assert(join_words(seq![Verb::Quit.spec_name()]) == Verb::Quit.spec_name());
                    assert(dst@ =~= d0 + command_line(self@) + seq![13u8, 10u8]);
                }
            },
            Command::PauseTube { tube, delay } => {
                push_slice(dst, &[112, 97, 117, 115, 101, 45, 116, 117, 98, 101]);
                dst.push(32);
                push_slice(dst, tube.as_slice());
                dst.push(32);
                push_decimal(*delay as u64, dst);
                push_slice(dst, &[13, 10]);
                proof {
                    lemma_join3(Verb::PauseTube.spec_name(), tube@, decimal(*delay as nat));
                    assert(dst@ =~= d0 + command_line(self@) + seq![13u8, 10u8]);
                }
            },
            Command::Use { tube } => {
                push_slice(dst, &[117, 115, 101]);
                dst.push(32);
                push_slice(dst, tube.as_slice());
                push_slice(dst, &[13, 10]);
                proof {
                    lemma_join2(Verb::Use.spec_name(), tube@);
                    assert(dst@ =~= d0 + command_line(self@) + seq![13u8, 10u8]);
                }
            },
        }
    }
}


/// No carriage return in `w`.
pub open spec fn no_cr(w: Seq<u8>) -> bool {
    forall|k: int| 0 <= k < w.len() ==> #[trigger] w[k] != 13
}

proof fn lemma_join_no_cr(ws: Seq<Seq<u8>>)
    requires
        forall|i: int| 0 <= i < ws.len() ==> no_cr(#[trigger] ws[i]),
    ensures
        no_cr(join_words(ws)),
    decreases ws.len(),
{
    if ws.len() >= 2 {
        let rest = ws.drop_first();
        assert forall|i: int| 0 <= i < rest.len() implies no_cr(#[trigger] rest[i]) by {
            assert(rest[i] == ws[i + 1]);
        }
        lemma_join_no_cr(rest);
        let w = ws[0];
        let s = join_words(ws);
        assert(no_cr(w));
        assert forall|k: int| 0 <= k < s.len() implies #[trigger] s[k] != 13 by {
            if k < w.len() {
                assert(s[k] == w[k]);
            } else if k > w.len() {
                assert(s[k] == join_words(rest)[k - w.len() - 1]);
            }
        }
    } else if ws.len() == 1 {
        assert(no_cr(ws[0]));
    }
}

proof fn lemma_command_no_cr(c: CommandModel)
    requires
        command_ok(c),
    ensures
        no_cr(command_line(c)),
{
    let ws = command_words(c);
    let v = c.verb().spec_name();
    assert(no_cr(v)) by {
        lemma_verb_names(c.verb());
        assert forall|k: int| 0 <= k < v.len() implies #[trigger] v[k] != 13 by {
            lemma_verb_bytes(c.verb(), k);
        }
    }
    assert forall|i: int| 0 <= i < ws.len() implies no_cr(#[trigger] ws[i]) by {
        let w = ws[i];
        if i > 0 {
            assert forall|k: int| 0 <= k < w.len() implies #[trigger] w[k] != 13 by {
                match c {
                    CommandModel::Put { pri, delay, ttr, n_bytes } => {
                        lemma_decimal_round_trip(pri as nat);
                        lemma_decimal_round_trip(delay as nat);
                        lemma_decimal_round_trip(ttr as nat);
                        lemma_decimal_round_trip(n_bytes as nat);
                    },
                    CommandModel::Reserve => {
                    },
                    CommandModel::ReserveWithTimeout { timeout } => {
                        lemma_decimal_round_trip(timeout as nat);
                    },
                    CommandModel::ReserveJob { id } => {
                        lemma_decimal_round_trip(id as nat);
                    },
                    CommandModel::Release { id, pri, delay } => {
                        lemma_decimal_round_trip(id as nat);
                        lemma_decimal_round_trip(pri as nat);
                        lemma_decimal_round_trip(delay as nat);
                    },
                    CommandModel::Delete { id } => {
                        lemma_decimal_round_trip(id as nat);
                    },
                    CommandModel::Bury { id, pri } => {
                        lemma_decimal_round_trip(id as nat);
                        lemma_decimal_round_trip(pri as nat);
                    },
                    CommandModel::Touch { id } => {
                        lemma_decimal_round_trip(id as nat);
                    },
                    CommandModel::Watch { tube } => {
                        assert(is_tube_name(tube) ==> forall|j: int| 0 <= j < tube.len() ==> is_tube_byte(#[trigger] tube[j]));
                    },
                    CommandModel::Ignore { tube } => {
                        assert(is_tube_name(tube) ==> forall|j: int| 0 <= j < tube.len() ==> is_tube_byte(#[trigger] tube[j]));
                    },
                    CommandModel::Peek { id } => {
                        lemma_decimal_round_trip(id as nat);
                    },
                    CommandModel::PeekReady => {
                    },
                    CommandModel::PeekDelayed => {
                    },
                    CommandModel::PeekBuried => {
                    },
                    CommandModel::Kick { bound } => {
                        lemma_decimal_round_trip(bound as nat);
                    },
                    CommandModel::KickJob { id } => {
                        lemma_decimal_round_trip(id as nat);
                    },
                    CommandModel::StatsJob { id } => {
                        lemma_decimal_round_trip(id as nat);
                    },
                    CommandModel::StatsTube { tube } => {
                        assert(is_tube_name(tube) ==> forall|j: int| 0 <= j < tube.len() ==> is_tube_byte(#[trigger] tube[j]));
                    },
                    CommandModel::StatsServer => {
                    },
                    CommandModel::ListTubes => {
                    },
                    CommandModel::ListTubeUsed => {
                    },
                    CommandModel::ListTubesWatched => {
                    },
                    CommandModel::Quit => {
                    },
                    CommandModel::PauseTube { tube, delay } => {
                        assert(is_tube_name(tube) ==> forall|j: int| 0 <= j < tube.len() ==> is_tube_byte(#[trigger] tube[j]));
                        lemma_decimal_round_trip(delay as nat);
                    },
                    CommandModel::Use { tube } => {
                        assert(is_tube_name(tube) ==> forall|j: int| 0 <= j < tube.len() ==> is_tube_byte(#[trigger] tube[j]));
                    },
                }
            }
        }
    }
    lemma_join_no_cr(ws);
}

/// Every byte of a keyword is a lower-case letter or `-`.
proof fn lemma_verb_bytes(v: Verb, k: int)
    requires
        0 <= k < v.spec_name().len(),
    ensures
        (97 <= v.spec_name()[k] <= 122) || v.spec_name()[k] == 45,
{
}

/// A command with valid tube names, written as a line of at most 224
/// bytes with its CRLF, is decoded back into the same command, and the
/// decoder takes exactly that line.
pub proof fn lemma_command_message_round_trip(c: CommandModel, rest: Seq<u8>)
    requires
        command_ok(c),
        command_line(c).len() + 2 <= 224,
    ensures
        decode_step(Decoder::ParseCommand, command_line(c) + seq![13u8, 10u8] + rest).1 == rest,
        decode_step(Decoder::ParseCommand, command_line(c) + seq![13u8, 10u8] + rest).2 == Ok::<
            Option<EventModel>,
            Response,
        >(Some(EventModel::Command(c))),
{
    let line = command_line(c);
    let s = line + seq![13u8, 10u8] + rest;
    lemma_command_no_cr(c);
    lemma_command_round_trip(c);
    let n = line.len() as int;
    assert(is_crlf_at(s, n));
    assert forall|k: int| 0 <= k < n implies !is_crlf_at(s, k) by {
        assert(s[k] == line[k]);
    }
    assert(first_crlf_within(s, 224, n));
    let i = choose|i: int| first_crlf_within(s, 224, i);
    if i < n {
        assert(!is_crlf_at(s, i));
    } else if i > n {
        assert(!first_crlf_within(s, 224, i));
    }
    assert(s.subrange(0, n) =~= line);
    assert(s.subrange(n + 2, s.len() as int) =~= rest);
}

} // verus!
