//! The G923's TrueForce init sequence: the 68 packets of 64 bytes that
//! open a TrueForce session, parsed out of the C header that holds them
//! (one packet per line, `{ 0x.., 0x.., ... },`) and rendered as the Rust
//! array the streaming code embeds, so there is one source of truth for
//! the bytes.
//!
//! The rows are simple (only byte literals between the braces, no nested
//! braces), so this is a line-oriented reader, not a C parser. A line
//! without `0x` in it, or without both braces, is not a row.

use vstd::prelude::*;
use vstd::string::*;
use crate::text::{
    all_hex, first_index, hex_digit_value, hex_value, is_first, is_ws, lemma_hex_value_grows,
    lemma_hex_value_nonneg, lemma_hex_value_step, lemma_trim_end_skip, lemma_trim_start_skip, trim,
    trim_end, trim_start, is_whitespace, hex_digit,
};

verus! {

/// Packets in the init sequence.
pub const PACKET_COUNT: usize = 68;

/// Bytes in one packet.
pub const PACKET_LEN: usize = 64;

/// Why a header could not be read as the init sequence. Lines are counted
/// from 0.
#[derive(Debug, Clone, Copy, PartialEq, Eq, Structural)]
pub enum InitDataError {
    /// A row's closing brace comes before its opening one.
    Malformed { line: usize },
    /// Something between a row's braces is not a byte literal.
    BadByte { line: usize },
    /// A row holds other than [`PACKET_LEN`] bytes.
    RowLength { line: usize, bytes: usize },
    /// The header holds other than [`PACKET_COUNT`] rows.
    PacketCount { packets: usize },
}

// ---------------------------------------------------------------------------
// Specifications.
// ---------------------------------------------------------------------------

/// A line without its `\r`, when the line ended in `\r\n`.
pub open spec fn strip_cr(l: Seq<char>) -> Seq<char> {
    if l.len() > 0 && l.last() == '\r' {
        l.drop_last()
    } else {
        l
    }
}

/// The lines of `s`, the current one having begun with `cur`: lines end
/// at `\n` (a `\r` before it is dropped); a last line without `\n` keeps
/// what it holds, and an empty one is no line at all.
pub open spec fn lines_from(s: Seq<char>, cur: Seq<char>) -> Seq<Seq<char>>
    decreases s.len(),
{
    if s.len() == 0 {
        if cur.len() == 0 {
            Seq::empty()
        } else {
            seq![cur]
        }
    } else if s[0] == '\n' {
        seq![strip_cr(cur)] + lines_from(s.drop_first(), Seq::empty())
    } else {
        lines_from(s.drop_first(), cur.push(s[0]))
    }
}

/// `str::lines`.
pub open spec fn text_lines(s: Seq<char>) -> Seq<Seq<char>> {
    lines_from(s, Seq::empty())
}

/// Whether `0x` begins at position `i` of `l`.
pub open spec fn marker_at(l: Seq<char>, i: int) -> bool {
    0 <= i && i + 1 < l.len() && l[i] == '0' && l[i + 1] == 'x'
}

/// Whether `l` contains `0x`.
pub open spec fn has_hex_marker(l: Seq<char>) -> bool {
    exists|i: int| #[trigger] marker_at(l, i)
}

/// `i` is the position of the last `c` in `s`.
pub open spec fn is_last(s: Seq<char>, c: char, i: int) -> bool {
    &&& 0 <= i < s.len()
    &&& s[i] == c
    &&& forall|j: int| i < j < s.len() ==> s[j] != c
}

/// The position of the last `c` in `s`, if `c` occurs.
pub open spec fn last_index(s: Seq<char>, c: char) -> Option<int> {
    if exists|i: int| is_last(s, c, i) {
        Some(choose|i: int| is_last(s, c, i))
    } else {
        None
    }
}

/// The pieces of `s` between commas, the current one having begun with
/// `cur` (`str::split(',')`: empty pieces included).
pub open spec fn pieces_from(s: Seq<char>, cur: Seq<char>) -> Seq<Seq<char>>
    decreases s.len(),
{
    if s.len() == 0 {
        seq![cur]
    } else if s[0] == ',' {
        seq![cur] + pieces_from(s.drop_first(), Seq::empty())
    } else {
        pieces_from(s.drop_first(), cur.push(s[0]))
    }
}

/// `t` without every leading `0x` (`str::trim_start_matches("0x")`).
pub open spec fn strip_hex_prefixes(t: Seq<char>) -> Seq<char>
    decreases t.len(),
{
    if t.len() >= 2 && t[0] == '0' && t[1] == 'x' {
        strip_hex_prefixes(t.subrange(2, t.len() as int))
    } else {
        t
    }
}

/// `u8::from_str_radix(s, 16)`.
pub open spec fn parse_hex_u8(s: Seq<char>) -> Option<u8> {
    let body = if s.len() > 0 && s[0] == '+' {
        s.drop_first()
    } else {
        s
    };
    if body.len() > 0 && all_hex(body) && hex_value(body) <= 0xff {
        Some(hex_value(body) as u8)
    } else {
        None
    }
}

/// A byte literal: `0x` prefixes dropped, the rest hexadecimal.
pub open spec fn byte_literal(t: Seq<char>) -> Option<u8> {
    parse_hex_u8(strip_hex_prefixes(t))
}

/// The bytes of a row's pieces: each piece trimmed, empty ones skipped,
/// the rest byte literals; `None` if one is not.
pub open spec fn piece_bytes(pieces: Seq<Seq<char>>) -> Option<Seq<u8>>
    decreases pieces.len(),
{
    if pieces.len() == 0 {
        Some(Seq::empty())
    } else {
        match piece_bytes(pieces.drop_last()) {
            None => None,
            Some(bs) => {
                let t = trim(pieces.last());
                if t.len() == 0 {
                    Some(bs)
                } else {
                    match byte_literal(t) {
                        None => None,
                        Some(b) => Some(bs.push(b)),
                    }
                }
            },
        }
    }
}

/// What line `k`, `l`, holds: no row, a row's bytes, or why it is not a
/// well-formed row.
pub open spec fn parse_row(l: Seq<char>, k: usize) -> Result<Option<Seq<u8>>, InitDataError> {
    if !has_hex_marker(l) {
        Ok(None)
    } else {
        match (first_index(l, '{'), last_index(l, '}')) {
            (Some(a), Some(b)) => if a + 1 > b {
                Err(InitDataError::Malformed { line: k })
            } else {
                match piece_bytes(pieces_from(l.subrange(a + 1, b), Seq::empty())) {
                    None => Err(InitDataError::BadByte { line: k }),
                    Some(bs) => if bs.len() != PACKET_LEN {
                        Err(InitDataError::RowLength { line: k, bytes: bs.len() as usize })
                    } else {
                        Ok(Some(bs))
                    },
                }
            },
            _ => Ok(None),
        }
    }
}

/// The rows of the first `n` lines, in order, or the first line's fault.
pub open spec fn rows_of(lines: Seq<Seq<char>>, n: nat) -> Result<Seq<Seq<u8>>, InitDataError>
    decreases n,
{
    if n == 0 {
        Ok(Seq::empty())
    } else {
        match rows_of(lines, (n - 1) as nat) {
            Err(e) => Err(e),
            Ok(rs) => match parse_row(lines[n - 1], (n - 1) as usize) {
                Err(e) => Err(e),
                Ok(None) => Ok(rs),
                Ok(Some(r)) => Ok(rs.push(r)),
            },
        }
    }
}

/// What a header reads as: its [`PACKET_COUNT`] rows, or why not.
pub open spec fn init_packets(text: Seq<char>) -> Result<Seq<Seq<u8>>, InitDataError> {
    let lines = text_lines(text);
    match rows_of(lines, lines.len()) {
        Err(e) => Err(e),
        Ok(rs) => if rs.len() != PACKET_COUNT {
            Err(InitDataError::PacketCount { packets: rs.len() as usize })
        } else {
            Ok(rs)
        },
    }
}

// ---------------------------------------------------------------------------
// Reading.
// ---------------------------------------------------------------------------

fn chars_of(s: &str) -> (r: Vec<char>)
    ensures
        r@ == s@,
{
    let mut out: Vec<char> = Vec::new();
    for c in it: s.chars()
        invariant
            out@ == it.seq().take(it.index() as int),
    {
        out.push(c);
    }
    out
}

pub open spec fn views(v: Seq<Vec<char>>) -> Seq<Seq<char>> {
    v.map_values(|l: Vec<char>| l@)
}

/// Split `s` into its lines.
fn split_lines(s: &Vec<char>) -> (r: Vec<Vec<char>>)
    ensures
        views(r@) == text_lines(s@),
{
    let n = s.len();
    let mut done: Vec<Vec<char>> = Vec::new();
    let mut cur: Vec<char> = Vec::new();
    let mut i: usize = 0;
    assert(s@.subrange(0, n as int) =~= s@);
    while i < n
        invariant
            n == s@.len(),
            i <= n,
            text_lines(s@) == views(done@) + lines_from(s@.subrange(i as int, n as int), cur@),
        decreases n - i,
    {
        let ghost rest = s@.subrange(i as int, n as int);
        assert(rest[0] == s@[i as int]);
        assert(rest.drop_first() =~= s@.subrange(i + 1, n as int));
        let c = s[i];
        if c == '\n' {
            let mut line = cur;
            let l = line.len();
            if l > 0 && line[l - 1] == '\r' {
                line.pop();
                assert(line@ =~= strip_cr(cur@));
            }
            assert(line@ == strip_cr(cur@));
            let ghost before = done@;
            done.push(line);
            assert(views(done@) =~= views(before) + seq![strip_cr(cur@)]);
            cur = Vec::new();
        } else {
            cur.push(c);
        }
        i = i + 1;
    }
    assert(s@.subrange(n as int, n as int) =~= Seq::<char>::empty());
    if cur.len() > 0 {
        let ghost before = done@;
        done.push(cur);
        assert(views(done@) =~= views(before) + seq![cur@]);
    } else {
        assert(views(done@) =~= views(done@) + Seq::<Seq<char>>::empty());
    }
    done
}

/// Whether `l` contains `0x`.
fn contains_hex_marker(l: &Vec<char>) -> (r: bool)
    ensures
        r == has_hex_marker(l@),
{
    let n = l.len();
    let mut i: usize = 0;
    while i < n && i + 1 < n
        invariant
            n == l@.len(),
            i <= n,
            forall|j: int| 0 <= j < i ==> !#[trigger] marker_at(l@, j),
        decreases n - i,
    {
        if l[i] == '0' && l[i + 1] == 'x' {
            assert(marker_at(l@, i as int));
            return true;
        }
        i = i + 1;
    }
    assert forall|j: int| !#[trigger] marker_at(l@, j) by {
        if 0 <= j < i {
        }
    }
    false
}

/// The position of the first `c` in `l`.
fn find_first(l: &Vec<char>, c: char) -> (r: Option<usize>)
    ensures
        r matches Some(i) ==> i < l@.len(),
        match r {
            Some(i) => first_index(l@, c) == Some(i as int),
            None => first_index(l@, c) is None,
        },
{
    let n = l.len();
    let mut i: usize = 0;
    while i < n
        invariant
            n == l@.len(),
            i <= n,
            forall|j: int| 0 <= j < i ==> l@[j] != c,
        decreases n - i,
    {
        if l[i] == c {
            assert(is_first(l@, c, i as int));
            proof {
                let k = choose|k: int| is_first(l@, c, k);
                if k < i {
                    assert(l@[k] != c);
                } else if k > i {
                    assert(l@[i as int] != c);
                }
            }
            return Some(i);
        }
        i = i + 1;
    }
    proof {
        if exists|k: int| is_first(l@, c, k) {
            let k = choose|k: int| is_first(l@, c, k);
            assert(l@[k] != c);
        }
    }
    None
}

/// The position of the last `c` in `l`.
fn find_last(l: &Vec<char>, c: char) -> (r: Option<usize>)
    ensures
        r matches Some(i) ==> i < l@.len(),
        match r {
            Some(i) => last_index(l@, c) == Some(i as int),
            None => last_index(l@, c) is None,
        },
{
    let n = l.len();
    let mut i: usize = n;
    while i > 0
        invariant
            n == l@.len(),
            i <= n,
            forall|j: int| i <= j < n ==> l@[j] != c,
        decreases i,
    {
        if l[i - 1] == c {
            assert(is_last(l@, c, i - 1));
            proof {
                let k = choose|k: int| is_last(l@, c, k);
                if k < i - 1 {
                    assert(l@[i - 1] != c);
                } else if k > i - 1 {
                    assert(l@[k] != c);
                }
            }
            return Some(i - 1);
        }
        i = i - 1;
    }
    proof {
        if exists|k: int| is_last(l@, c, k) {
            let k = choose|k: int| is_last(l@, c, k);
            assert(l@[k] != c);
        }
    }
    None
}

/// The comma-separated pieces of `l[a..b]`.
fn split_pieces(l: &Vec<char>, a: usize, b: usize) -> (r: Vec<Vec<char>>)
    requires
        a <= b <= l@.len(),
    ensures
        views(r@) == pieces_from(l@.subrange(a as int, b as int), Seq::empty()),
{
    let mut done: Vec<Vec<char>> = Vec::new();
    let mut cur: Vec<char> = Vec::new();
    let mut i: usize = a;
    while i < b
        invariant
            a <= i <= b <= l@.len(),
            pieces_from(l@.subrange(a as int, b as int), Seq::empty()) == views(done@) + pieces_from(
                l@.subrange(i as int, b as int),
                cur@,
            ),
        decreases b - i,
    {
        let ghost rest = l@.subrange(i as int, b as int);
        assert(rest[0] == l@[i as int]);
        assert(rest.drop_first() =~= l@.subrange(i + 1, b as int));
        let c = l[i];
        if c == ',' {
            let ghost before = done@;
            let ghost piece = cur@;
            done.push(cur);
            assert(views(done@) =~= views(before) + seq![piece]);
            cur = Vec::new();
        } else {
            cur.push(c);
        }
        i = i + 1;
    }
    assert(l@.subrange(b as int, b as int) =~= Seq::<char>::empty());
    let ghost before = done@;
    let ghost piece = cur@;
    done.push(cur);
    assert(views(done@) =~= views(before) + seq![piece]);
    done
}

/// The range of `p` that trimming whitespace from both ends leaves.
fn trimmed(p: &Vec<char>) -> (r: (usize, usize))
    ensures
        r.0 <= r.1 <= p@.len(),
        p@.subrange(r.0 as int, r.1 as int) == trim(p@),
{
    let n = p.len();
    let mut a: usize = 0;
    assert(p@.subrange(0, n as int) =~= p@);
    while a < n && is_whitespace(p[a])
        invariant
            n == p@.len(),
            a <= n,
            trim_start(p@) == trim_start(p@.subrange(a as int, n as int)),
        decreases n - a,
    {
        proof {
            lemma_trim_start_skip(p@, a as int);
        }
        a = a + 1;
    }
    let ghost t = p@.subrange(a as int, n as int);
    assert(trim_start(p@) == t);
    let mut b: usize = n;
    assert(t.subrange(0, (n - a) as int) =~= t);
    while b > a && is_whitespace(p[b - 1])
        invariant
            n == p@.len(),
            a <= b <= n,
            t == p@.subrange(a as int, n as int),
            trim_end(t) == trim_end(t.subrange(0, (b - a) as int)),
        decreases b,
    {
        proof {
            assert(t[(b - a) - 1] == p@[b - 1]);
            lemma_trim_end_skip(t, (b - a) as int);
        }
        b = b - 1;
    }
    assert(p@.subrange(a as int, b as int) =~= t.subrange(0, (b - a) as int));
    (a, b)
}

/// Where `p[a..b]` continues once every leading `0x` is skipped.
fn skip_hex_prefixes(p: &Vec<char>, a: usize, b: usize) -> (r: usize)
    requires
        a <= b <= p@.len(),
    ensures
        a <= r <= b,
        p@.subrange(r as int, b as int) == strip_hex_prefixes(p@.subrange(a as int, b as int)),
{
    let mut k: usize = a;
    while k < b && b - k >= 2 && p[k] == '0' && p[k + 1] == 'x'
        invariant
            a <= k <= b <= p@.len(),
            strip_hex_prefixes(p@.subrange(a as int, b as int)) == strip_hex_prefixes(
                p@.subrange(k as int, b as int),
            ),
        decreases b - k,
    {
        assert(p@.subrange(k as int, b as int).subrange(2, (b - k) as int) =~= p@.subrange(
            k + 2,
            b as int,
        ));
        k = k + 2;
    }
    k
}

/// `u8::from_str_radix(p[a..b], 16)`.
fn hex_byte(p: &Vec<char>, a: usize, b: usize) -> (r: Option<u8>)
    requires
        a <= b <= p@.len(),
    ensures
        r == parse_hex_u8(p@.subrange(a as int, b as int)),
{
    let ghost s = p@.subrange(a as int, b as int);
    if a == b {
        return None;
    }
    let start: usize = if p[a] == '+' {
        a + 1
    } else {
        a
    };
    let ghost body = if s[0] == '+' {
        s.drop_first()
    } else {
        s
    };
    assert(body =~= p@.subrange(start as int, b as int));
    if start == b {
        return None;
    }
    let mut v: u32 = 0;
    let mut i: usize = start;
    assert(body.subrange(0, 0) =~= Seq::<char>::empty());
    while i < b
        invariant
            a < b <= p@.len(),
            s == p@.subrange(a as int, b as int),
            start == (if s[0] == '+' { a + 1 } else { a as int }),
            start <= i <= b,
            body == (if s[0] == '+' { s.drop_first() } else { s }),
            body == p@.subrange(start as int, b as int),
            v <= 0xff,
            v as int == hex_value(body.subrange(0, (i - start) as int)),
            all_hex(body.subrange(0, (i - start) as int)),
        decreases b - i,
    {
        let c = p[i];
        let ghost k = (i - start) as int;
        assert(body[k] == c);
        let d = match hex_digit(c) {
            Some(d) => d,
            None => {
                assert(hex_digit_value(body[k]) is None);
                return None;
            },
        };
        assert(hex_digit_value(c) == Some(d as int));
        proof {
            lemma_hex_value_step(body, k);
        }
        assert(hex_value(body.subrange(0, k + 1)) == v * 16 + d);
        if v > (0xff - d) / 16 {
            proof {
                assert(v * 16 + d > 0xff) by (nonlinear_arith)
                    requires
                        v > (0xff - d) / 16,
                        d < 16,
                ;
                if all_hex(body) {
                    lemma_hex_value_grows(body, k + 1);
                }
            }
            return None;
        }
        assert(v * 16 + d <= 0xff) by (nonlinear_arith)
            requires
                v <= (0xff - d) / 16,
                d < 16,
        ;
        v = v * 16 + d;
        proof {
            assert forall|j: int| 0 <= j < k + 1 implies #[trigger] hex_digit_value(
                body.subrange(0, k + 1)[j],
            ) is Some by {
                if j < k {
                    assert(body.subrange(0, k + 1)[j] == body.subrange(0, k)[j]);
                }
            }
        }
        i = i + 1;
    }
    assert(body.subrange(0, (b - start) as int) =~= body);
    Some(v as u8)
}

/// Once a prefix of the pieces holds a bad byte, every longer one does.
proof fn lemma_bad_piece_sticks(pieces: Seq<Seq<char>>, m: int)
    requires
        0 <= m <= pieces.len(),
        piece_bytes(pieces.take(m)) is None,
    ensures
        piece_bytes(pieces) is None,
    decreases pieces.len() - m,
{
    if m < pieces.len() {
        assert(pieces.take(m + 1).drop_last() =~= pieces.take(m));
        lemma_bad_piece_sticks(pieces, m + 1);
    } else {
        assert(pieces.take(m) =~= pieces);
    }
}

/// Once a line is faulty, the rows of every longer prefix report it.
proof fn lemma_fault_sticks(lines: Seq<Seq<char>>, m: nat, n: nat)
    requires
        m <= n,
        rows_of(lines, m) is Err,
    ensures
        rows_of(lines, n) == rows_of(lines, m),
    decreases n - m,
{
    if m < n {
        lemma_fault_sticks(lines, m, (n - 1) as nat);
    }
}

pub open spec fn packet_views(ps: Seq<[u8; PACKET_LEN]>) -> Seq<Seq<u8>> {
    ps.map_values(|p: [u8; PACKET_LEN]| p@)
}

/// Read line `k`, `l`, as [`parse_row`] says.
fn read_row(l: &Vec<char>, k: usize) -> (r: Result<Option<[u8; PACKET_LEN]>, InitDataError>)
    ensures
        match r {
            Ok(None) => parse_row(l@, k) == Ok::<Option<Seq<u8>>, InitDataError>(None),
            Ok(Some(p)) => parse_row(l@, k) == Ok::<Option<Seq<u8>>, InitDataError>(Some(p@)),
            Err(e) => parse_row(l@, k) == Err::<Option<Seq<u8>>, InitDataError>(e),
        },
{
    let n = l.len();
    if !contains_hex_marker(l) {
        return Ok(None);
    }
    let a = match find_first(l, '{') {
        Some(a) => a,
        None => return Ok(None),
    };
    let b = match find_last(l, '}') {
        Some(b) => b,
        None => return Ok(None),
    };
    if a + 1 > b {
        return Err(InitDataError::Malformed { line: k });
    }
    let pieces = split_pieces(l, a + 1, b);
    let ghost pv = views(pieces@);
    let mut bytes: Vec<u8> = Vec::new();
    let mut j: usize = 0;
    assert(pv.take(0) =~= Seq::<Seq<char>>::empty());
    while j < pieces.len()
        invariant
            pv == views(pieces@),
            pv == pieces_from(l@.subrange(a + 1, b as int), Seq::empty()),
            has_hex_marker(l@),
            first_index(l@, '{') == Some(a as int),
            last_index(l@, '}') == Some(b as int),
            a + 1 <= b,
            j <= pieces@.len(),
            piece_bytes(pv.take(j as int)) == Some(bytes@),
        decreases pieces@.len() - j,
    {
        assert(pv.take(j + 1).drop_last() =~= pv.take(j as int));
        assert(pv.take(j + 1).last() == pieces@[j as int]@);
        let p = &pieces[j];
        let (s, e) = trimmed(p);
        if s < e {
            let st = skip_hex_prefixes(p, s, e);
            match hex_byte(p, st, e) {
                None => {
                    proof {
                        lemma_bad_piece_sticks(pv, j + 1);
                    }
                    return Err(InitDataError::BadByte { line: k });
                },
                Some(x) => {
                    bytes.push(x);
                },
            }
        } else {
            assert(trim(p@).len() == 0);
        }
        j = j + 1;
    }
    assert(pv.take(pieces@.len() as int) =~= pv);
    if bytes.len() != PACKET_LEN {
        return Err(InitDataError::RowLength { line: k, bytes: bytes.len() });
    }
    let mut row = [0u8; PACKET_LEN];
    let mut i: usize = 0;
    while i < PACKET_LEN
        invariant
            bytes@.len() == PACKET_LEN,
            row@.len() == PACKET_LEN,
            i <= PACKET_LEN,
            forall|q: int| 0 <= q < i ==> row@[q] == bytes@[q],
        decreases PACKET_LEN - i,
    {
        row[i] = bytes[i];
        i = i + 1;
    }
    assert(row@ =~= bytes@);
    Ok(Some(row))
}

/// Read the init sequence out of the header's text: its
/// [`PACKET_COUNT`] rows of [`PACKET_LEN`] bytes, in order, or why the
/// text is not that.
pub fn parse_init_data(text: &str) -> (r: Result<Vec<[u8; PACKET_LEN]>, InitDataError>)
    ensures
        match r {
            Ok(ps) => init_packets(text@) == Ok::<Seq<Seq<u8>>, InitDataError>(packet_views(ps@)),
            Err(e) => init_packets(text@) == Err::<Seq<Seq<u8>>, InitDataError>(e),
        },
{
    let chars = chars_of(text);
    let lines = split_lines(&chars);
    let ghost lv = views(lines@);
    let mut rows: Vec<[u8; PACKET_LEN]> = Vec::new();
    let mut k: usize = 0;
    assert(packet_views(rows@) =~= Seq::<Seq<u8>>::empty());
    while k < lines.len()
        invariant
            lv == views(lines@),
            lv == text_lines(text@),
            k <= lines@.len(),
            rows_of(lv, k as nat) == Ok::<Seq<Seq<u8>>, InitDataError>(packet_views(rows@)),
        decreases lines@.len() - k,
    {
        assert(lv[k as int] == lines@[k as int]@);
        match read_row(&lines[k], k) {
            Err(e) => {
                proof {
                    lemma_fault_sticks(lv, (k + 1) as nat, lv.len());
                }
                return Err(e);
            },
            Ok(None) => {},
            Ok(Some(row)) => {
                let ghost before = rows@;
                rows.push(row);
                assert(packet_views(rows@) =~= packet_views(before).push(row@));
            },
        }
        k = k + 1;
    }
    if rows.len() != PACKET_COUNT {
        return Err(InitDataError::PacketCount { packets: rows.len() });
    }
    Ok(rows)
}

// ---------------------------------------------------------------------------
// Rendering.
// ---------------------------------------------------------------------------

/// The lines that open the generated array.
pub const HEADER_TEXT: &'static str =
    "pub const TF_INIT_PACKET_COUNT: usize = 68;\npub const TF_INIT_PACKET_LEN: usize = 64;\npub static TF_INIT_PACKETS: [[u8; 64]; 68] = [\n";

/// The lowercase hexadecimal digit for `d < 16`.
pub open spec fn hex_char(d: int) -> char {
    if d == 0 {
        '0'
    } else if d == 1 {
        '1'
    } else if d == 2 {
        '2'
    } else if d == 3 {
        '3'
    } else if d == 4 {
        '4'
    } else if d == 5 {
        '5'
    } else if d == 6 {
        '6'
    } else if d == 7 {
        '7'
    } else if d == 8 {
        '8'
    } else if d == 9 {
        '9'
    } else if d == 10 {
        'a'
    } else if d == 11 {
        'b'
    } else if d == 12 {
        'c'
    } else if d == 13 {
        'd'
    } else if d == 14 {
        'e'
    } else {
        'f'
    }
}

/// A byte as `{:#04x}` writes it: `0x` and two lowercase digits.
pub open spec fn hex_pair(b: u8) -> Seq<char> {
    "0x"@ + seq![hex_char((b / 16) as int), hex_char((b % 16) as int)]
}

/// The bytes written out, separated by `, `.
pub open spec fn byte_list(p: Seq<u8>) -> Seq<char>
    decreases p.len(),
{
    if p.len() == 0 {
        Seq::empty()
    } else if p.len() == 1 {
        hex_pair(p[0])
    } else {
        byte_list(p.drop_last()) + ", "@ + hex_pair(p.last())
    }
}

/// One packet's line of the array.
pub open spec fn row_text(p: Seq<u8>) -> Seq<char> {
    "["@ + byte_list(p) + "],\n"@
}

/// The packets' lines, in order.
pub open spec fn rows_text(ps: Seq<Seq<u8>>) -> Seq<char>
    decreases ps.len(),
{
    if ps.len() == 0 {
        Seq::empty()
    } else {
        rows_text(ps.drop_last()) + row_text(ps.last())
    }
}

/// The generated source for `ps`.
pub open spec fn rendered(ps: Seq<Seq<u8>>) -> Seq<char> {
    HEADER_TEXT@ + rows_text(ps) + "];\n"@
}

/// The one-character string of the hexadecimal digit `d < 16`.
fn hex_char_str(d: u8) -> (r: &'static str)
    requires
        d < 16,
    ensures
        r@ == seq![hex_char(d as int)],
{
    proof {
        reveal_strlit("0");
        reveal_strlit("1");
        reveal_strlit("2");
        reveal_strlit("3");
        reveal_strlit("4");
        reveal_strlit("5");
        reveal_strlit("6");
        reveal_strlit("7");
        reveal_strlit("8");
        reveal_strlit("9");
        reveal_strlit("a");
        reveal_strlit("b");
        reveal_strlit("c");
        reveal_strlit("d");
        reveal_strlit("e");
        reveal_strlit("f");
    }
    if d == 0 {
        "0"
    } else if d == 1 {
        "1"
    } else if d == 2 {
        "2"
    } else if d == 3 {
        "3"
    } else if d == 4 {
        "4"
    } else if d == 5 {
        "5"
    } else if d == 6 {
        "6"
    } else if d == 7 {
        "7"
    } else if d == 8 {
        "8"
    } else if d == 9 {
        "9"
    } else if d == 10 {
        "a"
    } else if d == 11 {
        "b"
    } else if d == 12 {
        "c"
    } else if d == 13 {
        "d"
    } else if d == 14 {
        "e"
    } else {
        "f"
    }
}

/// The Rust source declaring `packets` as the init sequence: the count
/// and length constants, then one array line per packet, each byte
/// written `0x..`.
pub fn render_init_data(packets: &[[u8; PACKET_LEN]]) -> (r: String)
    ensures
        r@ == rendered(packet_views(packets@)),
{
    let ghost pv = packet_views(packets@);
    let mut out = String::from_str(HEADER_TEXT);
    let mut k: usize = 0;
    assert(pv.take(0) =~= Seq::<Seq<u8>>::empty());
    while k < packets.len()
        invariant
            pv == packet_views(packets@),
            k <= packets@.len(),
            out@ == HEADER_TEXT@ + rows_text(pv.take(k as int)),
        decreases packets@.len() - k,
    {
        let row = &packets[k];
        let ghost head = out@;
        out.append("[");
        let mut i: usize = 0;
        assert(row@.take(0) =~= Seq::<u8>::empty());
        while i < PACKET_LEN
            invariant
                row@.len() == PACKET_LEN,
                i <= PACKET_LEN,
                out@ == head + "["@ + byte_list(row@.take(i as int)),
            decreases PACKET_LEN - i,
        {
            assert(row@.take(i + 1).drop_last() =~= row@.take(i as int));
            assert(row@.take(i + 1).last() == row@[i as int]);
            let b = row[i];
            if i > 0 {
                out.append(", ");
            }
            out.append("0x");
            out.append(hex_char_str(b / 16));
            out.append(hex_char_str(b % 16));
            proof {
                if i == 0 {
                    assert(row@.take(1) =~= seq![b]);
                    assert(out@ =~= head + "["@ + byte_list(row@.take(1)));
                } else {
                    assert(out@ =~= head + "["@ + byte_list(row@.take(i + 1)));
                }
            }
            i = i + 1;
        }
        assert(row@.take(PACKET_LEN as int) =~= row@);
        out.append("],\n");
        assert(pv.take(k + 1).drop_last() =~= pv.take(k as int));
        assert(pv.take(k + 1).last() == row@);
        assert(out@ =~= HEADER_TEXT@ + rows_text(pv.take(k + 1)));
        k = k + 1;
    }
    assert(pv.take(packets@.len() as int) =~= pv);
    out.append("];\n");
    out
}

} // verus!

verus! {

/// Every hexadecimal digit written reads back as its value.
proof fn lemma_hex_char_value(d: int)
    requires
        0 <= d < 16,
    ensures
        crate::text::hex_digit_value(hex_char(d)) == Some(d),
{
}

/// What is rendered reads back: each byte written into the generated
/// array, read as a hexadecimal byte literal (as the header parser reads
/// it), is the byte that was rendered.
pub proof fn lemma_rendered_byte_reads_back(b: u8)
    ensures
        byte_literal(hex_pair(b)) == Some(b),
        hex_pair(b).len() == 4,
{
    let hi = (b / 16) as int;
    let lo = (b % 16) as int;
    lemma_hex_char_value(hi);
    lemma_hex_char_value(lo);
    reveal_strlit("0x");
    let t = hex_pair(b);
    assert(t[0] == '0' && t[1] == 'x');
    let digits = t.subrange(2, 4);
    assert(digits =~= seq![hex_char(hi), hex_char(lo)]);
    assert(strip_hex_prefixes(digits) == digits) by {
        assert(digits[0] != '0' || digits[1] != 'x');
    }
    assert(strip_hex_prefixes(t) == strip_hex_prefixes(digits));
    assert(digits.drop_last() =~= seq![hex_char(hi)]);
    assert(seq![hex_char(hi)].drop_last() =~= Seq::<char>::empty());
    assert(hex_value(Seq::<char>::empty()) == 0);
    assert(seq![hex_char(hi)].last() == hex_char(hi));
    assert(hex_value(seq![hex_char(hi)]) == hi);
    assert(digits.last() == hex_char(lo));
    assert(hex_value(digits) == hex_value(seq![hex_char(hi)]) * 16 + lo);
    assert(all_hex(digits));
    assert(hi * 16 + lo == b);
}

/// A packet's bytes are written in order, each as a four-character literal
/// that reads back as that byte, separated by `, `.
pub proof fn lemma_byte_list_reads_back(p: Seq<u8>)
    requires
        p.len() >= 1,
    ensures
        byte_list(p).len() == 6 * p.len() - 2,
        forall|i: int|
            0 <= i < p.len() ==> byte_literal(#[trigger] byte_list(p).subrange(6 * i, 6 * i + 4)) == Some(
                p[i],
            ),
        forall|i: int|
            0 <= i < p.len() - 1 ==> #[trigger] byte_list(p).subrange(6 * i + 4, 6 * i + 6) == ", "@,
    decreases p.len(),
{
    reveal_strlit(", ");
    reveal_strlit("0x");
    let l = byte_list(p);
    if p.len() == 1 {
        lemma_rendered_byte_reads_back(p[0]);
        assert(l.subrange(0, 4) =~= l);
    } else {
        let q = p.drop_last();
        lemma_byte_list_reads_back(q);
        lemma_rendered_byte_reads_back(p.last());
        let lq = byte_list(q);
        assert(l == lq + ", "@ + hex_pair(p.last()));
        assert forall|i: int| 0 <= i < p.len() implies byte_literal(#[trigger] l.subrange(6 * i, 6 * i + 4))
            == Some(p[i]) by {
            if i < q.len() {
                assert(l.subrange(6 * i, 6 * i + 4) =~= lq.subrange(6 * i, 6 * i + 4));
            } else {
                assert(l.subrange(6 * i, 6 * i + 4) =~= hex_pair(p.last()));
            }
        }
        assert forall|i: int| 0 <= i < p.len() - 1 implies #[trigger] l.subrange(6 * i + 4, 6 * i + 6)
            == ", "@ by {
            if i < q.len() - 1 {
                assert(l.subrange(6 * i + 4, 6 * i + 6) =~= lq.subrange(6 * i + 4, 6 * i + 6));
            } else {
                assert(l.subrange(6 * i + 4, 6 * i + 6) =~= ", "@);
            }
        }
    }
}

} // verus!
