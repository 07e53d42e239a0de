//! The grammar of command lines.
use vstd::prelude::*;

use crate::numbers::{digits_value, is_decimal, parse_u64};
use crate::protocol::{Command, CommandModel, Response, Verb};

verus! {

/// Index of the first space in `s`, or its length if there is none.
pub open spec fn space_index(s: Seq<u8>) -> nat
    decreases s.len(),
{
    if s.len() == 0 {
        0
    } else if s[0] == 32 {
        0
    } else {
        1 + space_index(s.drop_first())
    }
}

/// The words of `s`: the pieces between single spaces.
pub open spec fn split_words(s: Seq<u8>) -> Seq<Seq<u8>>
    decreases s.len(),
{
    let i = space_index(s);
    if i >= s.len() {
        seq![s]
    } else {
        seq![s.subrange(0, i as int)] + split_words(s.subrange(i as int + 1, s.len() as int))
    }
}

pub open spec fn words_view(ws: Seq<Vec<u8>>) -> Seq<Seq<u8>> {
    ws.map_values(|w: Vec<u8>| w@)
}

/// A field that must hold a 32-bit number.
pub open spec fn u32_field(w: Seq<u8>) -> Option<u32> {
    if is_decimal(w) && digits_value(w) <= u32::MAX {
        Some(digits_value(w) as u32)
    } else {
        None
    }
}

/// A field that must hold a 64-bit number.
pub open spec fn u64_field(w: Seq<u8>) -> Option<u64> {
    if is_decimal(w) && digits_value(w) <= u64::MAX {
        Some(digits_value(w) as u64)
    } else {
        None
    }
}

/// A byte allowed in a tube name: a letter, a digit or one of `+/;.$_()-`.
pub open spec fn is_tube_byte(b: u8) -> bool {
    (65 <= b && b <= 90) || (97 <= b && b <= 122) || (48 <= b && b <= 57) || b == 43 || b == 47
        || b == 59 || b == 46 || b == 36 || b == 95 || b == 40 || b == 41 || b == 45
}

/// A tube name: 1 to 200 allowed bytes, not starting with `-`.
pub open spec fn is_tube_name(s: Seq<u8>) -> bool {
    1 <= s.len() <= 200 && s[0] != 45 && forall|i: int| 0 <= i < s.len() ==> is_tube_byte(#[trigger] s[i])
}

/// The keyword spelled by `w`, if any.
pub open spec fn verb_from(w: Seq<u8>) -> Option<Verb> {
    if w == Verb::Put.spec_name() {
        Some(Verb::Put)
    } else if w == Verb::Reserve.spec_name() {
        Some(Verb::Reserve)
    } else if w == Verb::ReserveWithTimeout.spec_name() {
        Some(Verb::ReserveWithTimeout)
    } else if w == Verb::ReserveJob.spec_name() {
        Some(Verb::ReserveJob)
    } else if w == Verb::Release.spec_name() {
        Some(Verb::Release)
    } else if w == Verb::Delete.spec_name() {
        Some(Verb::Delete)
    } else if w == Verb::Bury.spec_name() {
        Some(Verb::Bury)
    } else if w == Verb::Touch.spec_name() {
        Some(Verb::Touch)
    } else if w == Verb::Watch.spec_name() {
        Some(Verb::Watch)
    } else if w == Verb::Ignore.spec_name() {
        Some(Verb::Ignore)
    } else if w == Verb::Peek.spec_name() {
        Some(Verb::Peek)
    } else if w == Verb::PeekReady.spec_name() {
        Some(Verb::PeekReady)
    } else if w == Verb::PeekDelayed.spec_name() {
        Some(Verb::PeekDelayed)
    } else if w == Verb::PeekBuried.spec_name() {
        Some(Verb::PeekBuried)
    } else if w == Verb::Kick.spec_name() {
        Some(Verb::Kick)
    } else if w == Verb::KickJob.spec_name() {
        Some(Verb::KickJob)
    } else if w == Verb::StatsJob.spec_name() {
        Some(Verb::StatsJob)
    } else if w == Verb::StatsTube.spec_name() {
        Some(Verb::StatsTube)
    } else if w == Verb::StatsServer.spec_name() {
        Some(Verb::StatsServer)
    } else if w == Verb::ListTubes.spec_name() {
        Some(Verb::ListTubes)
    } else if w == Verb::ListTubeUsed.spec_name() {
        Some(Verb::ListTubeUsed)
    } else if w == Verb::ListTubesWatched.spec_name() {
        Some(Verb::ListTubesWatched)
    } else if w == Verb::Quit.spec_name() {
        Some(Verb::Quit)
    } else if w == Verb::PauseTube.spec_name() {
        Some(Verb::PauseTube)
    } else if w == Verb::Use.spec_name() {
        Some(Verb::Use)
    } else {
        None
    }
}

/// The command that a keyword and its arguments make.
pub open spec fn parse_args(v: Verb, ws: Seq<Seq<u8>>) -> Result<CommandModel, Response> {
    match v {
        Verb::Put => if ws.len() == 5 && u32_field(ws[1]) is Some && u32_field(ws[2]) is Some && u32_field(ws[3]) is Some && u32_field(ws[4]) is Some {
            Ok(CommandModel::Put { pri: u32_field(ws[1])->0, delay: u32_field(ws[2])->0, ttr: u32_field(ws[3])->0, n_bytes: u32_field(ws[4])->0 })
        } else {
            Err(Response::BadFormat)
        },
        Verb::Reserve => if ws.len() == 1 {
            Ok(CommandModel::Reserve)
        } else {
            Err(Response::BadFormat)
        },
        Verb::ReserveWithTimeout => if ws.len() == 2 && u32_field(ws[1]) is Some {
            Ok(CommandModel::ReserveWithTimeout { timeout: u32_field(ws[1])->0 })
        } else {
            Err(Response::BadFormat)
        },
        Verb::ReserveJob => if ws.len() == 2 && u64_field(ws[1]) is Some {
            Ok(CommandModel::ReserveJob { id: u64_field(ws[1])->0 })
        } else {
            Err(Response::BadFormat)
        },
        Verb::Release => if ws.len() == 4 && u64_field(ws[1]) is Some && u32_field(ws[2]) is Some && u32_field(ws[3]) is Some {
            Ok(CommandModel::Release { id: u64_field(ws[1])->0, pri: u32_field(ws[2])->0, delay: u32_field(ws[3])->0 })
        } else {
            Err(Response::BadFormat)
        },
        Verb::Delete => if ws.len() == 2 && u64_field(ws[1]) is Some {
            Ok(CommandModel::Delete { id: u64_field(ws[1])->0 })
        } else {
            Err(Response::BadFormat)
        },
        Verb::Bury => if ws.len() == 3 && u64_field(ws[1]) is Some && u32_field(ws[2]) is Some {
            Ok(CommandModel::Bury { id: u64_field(ws[1])->0, pri: u32_field(ws[2])->0 })
        } else {
            Err(Response::BadFormat)
        },
        Verb::Touch => if ws.len() == 2 && u64_field(ws[1]) is Some {
            Ok(CommandModel::Touch { id: u64_field(ws[1])->0 })
        } else {
            Err(Response::BadFormat)
        },
        Verb::Watch => if ws.len() == 2 && is_tube_name(ws[1]) {
            Ok(CommandModel::Watch { tube: ws[1] })
        } else {
            Err(Response::BadFormat)
        },
        Verb::Ignore => if ws.len() == 2 && is_tube_name(ws[1]) {
            Ok(CommandModel::Ignore { tube: ws[1] })
        } else {
            Err(Response::BadFormat)
        },
        Verb::Peek => if ws.len() == 2 && u64_field(ws[1]) is Some {
            Ok(CommandModel::Peek { id: u64_field(ws[1])->0 })
        } else {
            Err(Response::BadFormat)
        },
        Verb::PeekReady => if ws.len() == 1 {
            Ok(CommandModel::PeekReady)
        } else {
            Err(Response::BadFormat)
        },
        Verb::PeekDelayed => if ws.len() == 1 {
            Ok(CommandModel::PeekDelayed)
        } else {
            Err(Response::BadFormat)
        },
        Verb::PeekBuried => if ws.len() == 1 {
            Ok(CommandModel::PeekBuried)
        } else {
            Err(Response::BadFormat)
        },
        Verb::Kick => if ws.len() == 2 && u64_field(ws[1]) is Some {
            Ok(CommandModel::Kick { bound: u64_field(ws[1])->0 })
        } else {
            Err(Response::BadFormat)
        },
        Verb::KickJob => if ws.len() == 2 && u64_field(ws[1]) is Some {
            Ok(CommandModel::KickJob { id: u64_field(ws[1])->0 })
        } else {
            Err(Response::BadFormat)
        },
        Verb::StatsJob => if ws.len() == 2 && u64_field(ws[1]) is Some {
            Ok(CommandModel::StatsJob { id: u64_field(ws[1])->0 })
        } else {
            Err(Response::BadFormat)
        },
        Verb::StatsTube => if ws.len() == 2 && is_tube_name(ws[1]) {
            Ok(CommandModel::StatsTube { tube: ws[1] })
        } else {
            Err(Response::BadFormat)
        },
        Verb::StatsServer => if ws.len() == 1 {
            Ok(CommandModel::StatsServer)
        } else {
            Err(Response::BadFormat)
        },
        Verb::ListTubes => if ws.len() == 1 {
            Ok(CommandModel::ListTubes)
        } else {
            Err(Response::BadFormat)
        },
        Verb::ListTubeUsed => if ws.len() == 1 {
            Ok(CommandModel::ListTubeUsed)
        } else {
            Err(Response::BadFormat)
        },
        Verb::ListTubesWatched => if ws.len() == 1 {
            Ok(CommandModel::ListTubesWatched)
        } else {
            Err(Response::BadFormat)
        },
        Verb::Quit => if ws.len() == 1 {
            Ok(CommandModel::Quit)
        } else {
            Err(Response::BadFormat)
        },
        Verb::PauseTube => if ws.len() == 3 && is_tube_name(ws[1]) && u32_field(ws[2]) is Some {
            Ok(CommandModel::PauseTube { tube: ws[1], delay: u32_field(ws[2])->0 })
        } else {
            Err(Response::BadFormat)
        },
        Verb::Use => if ws.len() == 2 && is_tube_name(ws[1]) {
            Ok(CommandModel::Use { tube: ws[1] })
        } else {
            Err(Response::BadFormat)
        },
    }
}

/// The meaning of a command line, without its CRLF.
pub open spec fn parse_line(line: Seq<u8>) -> Result<CommandModel, Response> {
    let ws = split_words(line);
    match verb_from(ws[0]) {
        Some(v) => parse_args(v, ws),
        None => Err(Response::UnknownCommand),
    }
}

pub proof fn lemma_space_index(s: Seq<u8>, m: int)
    requires
        0 <= m <= s.len(),
        forall|k: int| 0 <= k < m ==> s[k] != 32,
        m == s.len() || s[m] == 32,
    ensures
        space_index(s) == m,
    decreases m,
{
    if m > 0 {
        let t = s.drop_first();
        assert forall|k: int| 0 <= k < m - 1 implies t[k] != 32 by {
            assert(t[k] == s[k + 1]);
        }
        lemma_space_index(t, m - 1);
    }
}

/// Byte-wise equality.
pub fn eq_bytes(a: &[u8], b: &[u8]) -> (r: bool)
    ensures
        r == (a@ == b@),
{
    if a.len() != b.len() {
        return false;
    }
    let mut i: usize = 0;
    while i < a.len()
        invariant
            a.len() == b.len(),
            0 <= i <= a.len(),
            forall|k: int| 0 <= k < i ==> a@[k] == b@[k],
        decreases a.len() - i,
    {
        if a[i] != b[i] {
            return false;
        }
        i += 1;
    }
    assert(a@ =~= b@);
    true
}

/// A copy of `s[lo..hi]`.
pub fn copy_range(s: &[u8], lo: usize, hi: usize) -> (r: Vec<u8>)
    requires
        lo <= hi <= s.len(),
    ensures
        r@ == s@.subrange(lo as int, hi as int),
{
    let mut r: Vec<u8> = Vec::new();
    let mut i: usize = lo;
    while i < hi
        invariant
            lo <= i <= hi <= s.len(),
            r@ == s@.subrange(lo as int, i as int),
        decreases hi - i,
    {
        r.push(s[i]);
        i += 1;
        assert(r@ =~= s@.subrange(lo as int, i as int));
    }
    r
}

/// A copy of `s`.
pub fn copy_bytes(s: &[u8]) -> (r: Vec<u8>)
    ensures
        r@ == s@,
{
    let r = copy_range(s, 0, s.len());
    assert(s@.subrange(0, s@.len() as int) =~= s@);
    r
}

/// Splits a line into its words.
pub fn split_line(line: &[u8]) -> (r: Vec<Vec<u8>>)
    ensures
        words_view(r@) == split_words(line@),
        r.len() >= 1,
{
    let mut ws: Vec<Vec<u8>> = Vec::new();
    let mut pos: usize = 0;
    assert(line@.subrange(0, line@.len() as int) =~= line@);
    loop
        invariant
            0 <= pos <= line.len(),
            split_words(line@) == words_view(ws@) + split_words(line@.subrange(pos as int, line.len() as int)),
        decreases line.len() - pos,
    {
        let mut j: usize = pos;
        while j < line.len() && line[j] != 32
            invariant
                pos <= j <= line.len(),
                forall|k: int| pos <= k < j ==> line@[k] != 32,
            decreases line.len() - j,
        {
            j += 1;
        }
        let ghost t = line@.subrange(pos as int, line.len() as int);
        let ghost old_ws = ws@;
        proof {
            lemma_space_index(t, j - pos);
        }
        let word = copy_range(line, pos, j);
        ws.push(word);
        proof {
            assert(words_view(ws@) =~= words_view(old_ws).push(word@));
            assert(t.subrange(0, j - pos) =~= word@);
        }
        if j == line.len() {
            assert(t.subrange(0, j - pos) =~= t);
            assert(split_words(line@) =~= words_view(ws@));
            return ws;
        }
        proof {
            assert(t.subrange(j - pos + 1, t.len() as int) =~= line@.subrange(j + 1, line.len() as int));
            assert(split_words(line@) =~= words_view(ws@) + split_words(line@.subrange(j + 1, line.len() as int)));
        }
        pos = j + 1;
    }
}

/// Reads a field that must hold a 32-bit number.
pub fn u32_arg(w: &[u8]) -> (r: Option<u32>)
    ensures
        r == u32_field(w@),
{
    match parse_u64(w) {
        Some(v) => {
            if v <= 0xffff_ffff {
                Some(v as u32)
            } else {
                None
            }
        },
        None => None,
    }
}

/// Reads a field that must hold a 64-bit number.
pub fn u64_arg(w: &[u8]) -> (r: Option<u64>)
    ensures
        r == u64_field(w@),
{
    parse_u64(w)
}

/// Tells whether `w` is a valid tube name.
pub fn is_valid_tube_name(w: &[u8]) -> (r: bool)
    ensures
        r == is_tube_name(w@),
{
    if w.len() < 1 || w.len() > 200 || w[0] == 45 {
        return false;
    }
    let mut i: usize = 0;
    while i < w.len()
        invariant
            0 <= i <= w.len(),
            forall|k: int| 0 <= k < i ==> is_tube_byte(#[trigger] w@[k]),
        decreases w.len() - i,
    {
        let b = w[i];
        let ok = (65 <= b && b <= 90) || (97 <= b && b <= 122) || (48 <= b && b <= 57) || b == 43
            || b == 47 || b == 59 || b == 46 || b == 36 || b == 95 || b == 40 || b == 41 || b == 45;
        if !ok {
            assert(!is_tube_byte(w@[i as int]));
            return false;
        }
        i += 1;
    }
    true
}

/// Reads a field that must hold a tube name.
pub fn tube_arg(w: &[u8]) -> (r: Option<Vec<u8>>)
    ensures
        r is Some == is_tube_name(w@),
        r is Some ==> r->0@ == w@,
{
    if is_valid_tube_name(w) {
        Some(copy_bytes(w))
    } else {
        None
    }
}

impl Verb {
    /// The keyword spelled by `w`, if any.
    pub fn from_word(w: &[u8]) -> (r: Option<Verb>)
        ensures
            r == verb_from(w@),
    {
        if eq_bytes(w, &[112, 117, 116]) {
            return Some(Verb::Put);
        }
        if eq_bytes(w, &[114, 101, 115, 101, 114, 118, 101]) {
            return Some(Verb::Reserve);
        }
        if eq_bytes(w, &[114, 101, 115, 101, 114, 118, 101, 45, 119, 105, 116, 104, 45, 116, 105, 109, 101, 111, 117, 116]) {
            return Some(Verb::ReserveWithTimeout);
        }
        if eq_bytes(w, &[114, 101, 115, 101, 114, 118, 101, 45, 106, 111, 98]) {
            return Some(Verb::ReserveJob);
        }
        if eq_bytes(w, &[114, 101, 108, 101, 97, 115, 101]) {
            return Some(Verb::Release);
        }
        if eq_bytes(w, &[100, 101, 108, 101, 116, 101]) {
            return Some(Verb::Delete);
        }
        if eq_bytes(w, &[98, 117, 114, 121]) {
            return Some(Verb::Bury);
        }
        if eq_bytes(w, &[116, 111, 117, 99, 104]) {
            return Some(Verb::Touch);
        }
        if eq_bytes(w, &[119, 97, 116, 99, 104]) {
            return Some(Verb::Watch);
        }
        if eq_bytes(w, &[105, 103, 110, 111, 114, 101]) {
            return Some(Verb::Ignore);
        }
        if eq_bytes(w, &[112, 101, 101, 107]) {
            return Some(Verb::Peek);
        }
        if eq_bytes(w, &[112, 101, 101, 107, 45, 114, 101, 97, 100, 121]) {
            return Some(Verb::PeekReady);
        }
        if eq_bytes(w, &[112, 101, 101, 107, 45, 100, 101, 108, 97, 121, 101, 100]) {
            return Some(Verb::PeekDelayed);
        }
        if eq_bytes(w, &[112, 101, 101, 107, 45, 98, 117, 114, 105, 101, 100]) {
            return Some(Verb::PeekBuried);
        }
        if eq_bytes(w, &[107, 105, 99, 107]) {
            return Some(Verb::Kick);
        }
        if eq_bytes(w, &[107, 105, 99, 107, 45, 106, 111, 98]) {
            return Some(Verb::KickJob);
        }
        if eq_bytes(w, &[115, 116, 97, 116, 115, 45, 106, 111, 98]) {
            return Some(Verb::StatsJob);
        }
        if eq_bytes(w, &[115, 116, 97, 116, 115, 45, 116, 117, 98, 101]) {
            return Some(Verb::StatsTube);
        }
        if eq_bytes(w, &[115, 116, 97, 116, 115]) {
            return Some(Verb::StatsServer);
        }
        if eq_bytes(w, &[108, 105, 115, 116, 45, 116, 117, 98, 101, 115]) {
            return Some(Verb::ListTubes);
        }
        if eq_bytes(w, &[108, 105, 115, 116, 45, 116, 117, 98, 101, 45, 117, 115, 101, 100]) {
            return Some(Verb::ListTubeUsed);
        }
        if eq_bytes(w, &[108, 105, 115, 116, 45, 116, 117, 98, 101, 115, 45, 119, 97, 116, 99, 104, 101, 100]) {
            return Some(Verb::ListTubesWatched);
        }
        if eq_bytes(w, &[113, 117, 105, 116]) {
            return Some(Verb::Quit);
        }
        if eq_bytes(w, &[112, 97, 117, 115, 101, 45, 116, 117, 98, 101]) {
            return Some(Verb::PauseTube);
        }
        if eq_bytes(w, &[117, 115, 101]) {
            return Some(Verb::Use);
        }
        None
    }
}

/// Parses a command line, given without its CRLF.
pub fn parse_command(line: &[u8]) -> (r: Result<Command, Response>)
    ensures
        match r {
            Ok(c) => parse_line(line@) == Ok::<CommandModel, Response>(c@),
            Err(e) => parse_line(line@) == Err::<CommandModel, Response>(e),
        },
{
    let ws = split_line(line);
    let ghost wv = split_words(line@);
    assert(wv[0] == ws@[0]@);
    let verb = match Verb::from_word(ws[0].as_slice()) {
        Some(v) => v,
        None => {
            return Err(Response::UnknownCommand);
        },
    };
    let n = ws.len();
    match verb {
        Verb::Put => {
            if n == 5 {
                proof {
                    assert(wv[1] == ws@[1]@);
                    assert(wv[2] == ws@[2]@);
                    assert(wv[3] == ws@[3]@);
                    assert(wv[4] == ws@[4]@);
                }
                let a1 = u32_arg(ws[1].as_slice());
                let a2 = u32_arg(ws[2].as_slice());
                let a3 = u32_arg(ws[3].as_slice());
                let a4 = u32_arg(ws[4].as_slice());
                if let (Some(pri), Some(delay), Some(ttr), Some(n_bytes)) = (a1, a2, a3, a4) {
                    return Ok(Command::Put { pri, delay, ttr, n_bytes });
                }
            }
            Err(Response::BadFormat)
        },
        Verb::Reserve => {
            if n == 1 {
                return Ok(Command::Reserve);
            }
            Err(Response::BadFormat)
        },
        Verb::ReserveWithTimeout => {
            if n == 2 {
                proof {
                    assert(wv[1] == ws@[1]@);
                }
                let a1 = u32_arg(ws[1].as_slice());
                if let Some(timeout) = a1 {
                    return Ok(Command::ReserveWithTimeout { timeout });
                }
            }
            Err(Response::BadFormat)
        },
        Verb::ReserveJob => {
            if n == 2 {
                proof {
                    assert(wv[1] == ws@[1]@);
                }
                let a1 = u64_arg(ws[1].as_slice());
                if let Some(id) = a1 {
                    return Ok(Command::ReserveJob { id });
                }
            }
            Err(Response::BadFormat)
        },
        Verb::Release => {
            if n == 4 {
                proof {
                    assert(wv[1] == ws@[1]@);
                    assert(wv[2] == ws@[2]@);
                    assert(wv[3] == ws@[3]@);
                }
                let a1 = u64_arg(ws[1].as_slice());
                let a2 = u32_arg(ws[2].as_slice());
                let a3 = u32_arg(ws[3].as_slice());
                if let (Some(id), Some(pri), Some(delay)) = (a1, a2, a3) {
                    return Ok(Command::Release { id, pri, delay });
                }
            }
            Err(Response::BadFormat)
        },
        Verb::Delete => {
            if n == 2 {
                proof {
                    assert(wv[1] == ws@[1]@);
                }
                let a1 = u64_arg(ws[1].as_slice());
                if let Some(id) = a1 {
                    return Ok(Command::Delete { id });
                }
            }
            Err(Response::BadFormat)
        },
        Verb::Bury => {
            if n == 3 {
                proof {
                    assert(wv[1] == ws@[1]@);
                    assert(wv[2] == ws@[2]@);
                }
                let a1 = u64_arg(ws[1].as_slice());
                let a2 = u32_arg(ws[2].as_slice());
                if let (Some(id), Some(pri)) = (a1, a2) {
                    return Ok(Command::Bury { id, pri });
                }
            }
            Err(Response::BadFormat)
        },
        Verb::Touch => {
            if n == 2 {
                proof {
                    assert(wv[1] == ws@[1]@);
                }
                let a1 = u64_arg(ws[1].as_slice());
                if let Some(id) = a1 {
                    return Ok(Command::Touch { id });
                }
            }
            Err(Response::BadFormat)
        },
        Verb::Watch => {
            if n == 2 {
                proof {
                    assert(wv[1] == ws@[1]@);
                }
                let a1 = tube_arg(ws[1].as_slice());
                if let Some(tube) = a1 {
                    return Ok(Command::Watch { tube });
                }
            }
            Err(Response::BadFormat)
        },
        Verb::Ignore => {
            if n == 2 {
                proof {
                    assert(wv[1] == ws@[1]@);
                }
                let a1 = tube_arg(ws[1].as_slice());
                if let Some(tube) = a1 {
                    return Ok(Command::Ignore { tube });
                }
            }
            Err(Response::BadFormat)
        },
        Verb::Peek => {
            if n == 2 {
                proof {
                    assert(wv[1] == ws@[1]@);
                }
                let a1 = u64_arg(ws[1].as_slice());
                if let Some(id) = a1 {
                    return Ok(Command::Peek { id });
                }
            }
            Err(Response::BadFormat)
        },
        Verb::PeekReady => {
            if n == 1 {
                return Ok(Command::PeekReady);
            }
            Err(Response::BadFormat)
        },
        Verb::PeekDelayed => {
            if n == 1 {
                return Ok(Command::PeekDelayed);
            }
            Err(Response::BadFormat)
        },
        Verb::PeekBuried => {
            if n == 1 {
                return Ok(Command::PeekBuried);
            }
            Err(Response::BadFormat)
        },
        Verb::Kick => {
            if n == 2 {
                proof {
                    assert(wv[1] == ws@[1]@);
                }
                let a1 = u64_arg(ws[1].as_slice());
                if let Some(bound) = a1 {
                    return Ok(Command::Kick { bound });
                }
            }
            Err(Response::BadFormat)
        },
        Verb::KickJob => {
            if n == 2 {
                proof {
                    assert(wv[1] == ws@[1]@);
                }
                let a1 = u64_arg(ws[1].as_slice());
                if let Some(id) = a1 {
                    return Ok(Command::KickJob { id });
                }
            }
            Err(Response::BadFormat)
        },
        Verb::StatsJob => {
            if n == 2 {
                proof {
                    assert(wv[1] == ws@[1]@);
                }
                let a1 = u64_arg(ws[1].as_slice());
                if let Some(id) = a1 {
                    return Ok(Command::StatsJob { id });
                }
            }
            Err(Response::BadFormat)
        },
        Verb::StatsTube => {
            if n == 2 {
                proof {
                    assert(wv[1] == ws@[1]@);
                }
                let a1 = tube_arg(ws[1].as_slice());
                if let Some(tube) = a1 {
                    return Ok(Command::StatsTube { tube });
                }
            }
            Err(Response::BadFormat)
        },
        Verb::StatsServer => {
            if n == 1 {
                return Ok(Command::StatsServer);
            }
            Err(Response::BadFormat)
        },
        Verb::ListTubes => {
            if n == 1 {
                return Ok(Command::ListTubes);
            }
            Err(Response::BadFormat)
        },
        Verb::ListTubeUsed => {
            if n == 1 {
                return Ok(Command::ListTubeUsed);
            }
            Err(Response::BadFormat)
        },
        Verb::ListTubesWatched => {
            if n == 1 {
                return Ok(Command::ListTubesWatched);
            }
            Err(Response::BadFormat)
        },
        Verb::Quit => {
            if n == 1 {
                return Ok(Command::Quit);
            }
            Err(Response::BadFormat)
        },
        Verb::PauseTube => {
            if n == 3 {
                proof {
                    assert(wv[1] == ws@[1]@);
                    assert(wv[2] == ws@[2]@);
                }
                let a1 = tube_arg(ws[1].as_slice());
                let a2 = u32_arg(ws[2].as_slice());
                if let (Some(tube), Some(delay)) = (a1, a2) {
                    return Ok(Command::PauseTube { tube, delay });
                }
            }
            Err(Response::BadFormat)
        },
        Verb::Use => {
            if n == 2 {
                proof {
                    assert(wv[1] == ws@[1]@);
                }
                let a1 = tube_arg(ws[1].as_slice());
                if let Some(tube) = a1 {
                    return Ok(Command::Use { tube });
                }
            }
            Err(Response::BadFormat)
        },
    }
}

} // verus!
