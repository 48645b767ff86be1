//! Fixed-width hex dump of a byte payload: one header line, then one line per
//! 16-byte chunk. Each data line is an 8-digit uppercase hex offset (the
//! offsets rise by 16 per line, starting at 0), two spaces, the chunk's bytes
//! as space-joined two-digit uppercase hex pairs padded to a 47-character
//! column, two spaces, and an ASCII gutter in which printable bytes show as
//! themselves and all others as a dot.

use crate::strutil::push_char;
use vstd::prelude::*;
use vstd::slice::{slice_index_get, slice_subrange};
use vstd::string::StringExecFns;

verus! {

/// The hex digit character for a value below sixteen.
pub open spec fn hex_digit_char(n: int) -> char {
    if n == 0 {
        '0'
    } else if n == 1 {
        '1'
    } else if n == 2 {
        '2'
    } else if n == 3 {
        '3'
    } else if n == 4 {
        '4'
    } else if n == 5 {
        '5'
    } else if n == 6 {
        '6'
    } else if n == 7 {
        '7'
    } else if n == 8 {
        '8'
    } else if n == 9 {
        '9'
    } else if n == 10 {
        'A'
    } else if n == 11 {
        'B'
    } else if n == 12 {
        'C'
    } else if n == 13 {
        'D'
    } else if n == 14 {
        'E'
    } else {
        'F'
    }
}

fn hex_digit(n: u8) -> (c: char)
    requires
        n < 16,
    ensures
        c == hex_digit_char(n as int),
{
    if n == 0 {
        '0'
    } else if n == 1 {
        '1'
    } else if n == 2 {
        '2'
    } else if n == 3 {
        '3'
    } else if n == 4 {
        '4'
    } else if n == 5 {
        '5'
    } else if n == 6 {
        '6'
    } else if n == 7 {
        '7'
    } else if n == 8 {
        '8'
    } else if n == 9 {
        '9'
    } else if n == 10 {
        'A'
    } else if n == 11 {
        'B'
    } else if n == 12 {
        'C'
    } else if n == 13 {
        'D'
    } else if n == 14 {
        'E'
    } else {
        'F'
    }
}

/// Sixteen to the given power.
pub open spec fn pow16(p: nat) -> int
    decreases p,
{
    if p == 0 {
        1
    } else {
        16 * pow16((p - 1) as nat)
    }
}

proof fn lemma_pow16_pos(p: nat)
    ensures
        pow16(p) >= 1,
    decreases p,
{
    if p > 0 {
        lemma_pow16_pos((p - 1) as nat);
    }
}

/// The two hex digits of one byte.
pub open spec fn byte_hex(b: u8) -> Seq<char> {
    seq![hex_digit_char(b as int / 16), hex_digit_char(b as int % 16)]
}

/// The eight zero-padded hex digits of a line offset.
pub open spec fn offset_hex(off: int) -> Seq<char> {
    Seq::new(8, |d: int| hex_digit_char((off / pow16((7 - d) as nat)) % 16))
}

/// The ASCII-gutter character for one byte: printable bytes as themselves,
/// everything else as a dot.
pub open spec fn gutter_char(b: u8) -> char {
    if 0x20 <= b <= 0x7e {
        b as char
    } else {
        '.'
    }
}

/// The space-joined hex pairs of a chunk's bytes.
pub open spec fn hex_pairs(chunk: Seq<u8>) -> Seq<char>
    decreases chunk.len(),
{
    if chunk.len() == 0 {
        Seq::empty()
    } else if chunk.len() == 1 {
        byte_hex(chunk[0])
    } else {
        hex_pairs(chunk.drop_last()) + seq![' '] + byte_hex(chunk.last())
    }
}

/// A run of spaces (empty when the count is not positive).
pub open spec fn spaces(n: int) -> Seq<char> {
    Seq::new(if n < 0 { 0nat } else { n as nat }, |i: int| ' ')
}

pub proof fn lemma_hex_pairs_len(chunk: Seq<u8>)
    ensures
        hex_pairs(chunk).len() == if chunk.len() == 0 { 0int } else { 3 * chunk.len() - 1 },
    decreases chunk.len(),
{
    if chunk.len() > 1 {
        lemma_hex_pairs_len(chunk.drop_last());
    }
}

/// One data line of the dump for the chunk that starts at the given offset.
pub open spec fn hex_line(off: int, chunk: Seq<u8>) -> Seq<char> {
    offset_hex(off) + seq![' ', ' '] + hex_pairs(chunk) + spaces(47 - hex_pairs(chunk).len())
        + seq![' ', ' '] + chunk.map_values(|b: u8| gutter_char(b))
}

/// The dump's header line.
pub open spec fn hex_header() -> Seq<char> {
    "Hex View  00 01 02 03 04 05 06 07 08 09 0A 0B 0C 0D 0E 0F"@
}

/// How many 16-byte chunks (the last possibly short) a payload of the given
/// length has.
pub open spec fn num_chunks(n: int) -> int {
    n / 16 + if n % 16 == 0 {
        0int
    } else {
        1int
    }
}

/// The chunk of a payload with the given index.
pub open spec fn chunk_at(data: Seq<u8>, k: int) -> Seq<u8> {
    data.subrange(16 * k, if 16 * k + 16 <= data.len() { 16 * k + 16 } else { data.len() as int })
}

/// The newline-preceded data lines for the first `k` chunks.
pub open spec fn hex_body_upto(data: Seq<u8>, k: int) -> Seq<char>
    decreases k,
{
    if k <= 0 {
        Seq::empty()
    } else {
        hex_body_upto(data, k - 1) + seq!['\n'] + hex_line(16 * (k - 1), chunk_at(data, k - 1))
    }
}

/// The whole hex dump: the header, then one line per chunk, joined by
/// newlines with no trailing newline.
pub open spec fn spec_hex_view(data: Seq<u8>) -> Seq<char> {
    hex_header() + hex_body_upto(data, num_chunks(data.len() as int))
}

fn append_offset(r: &mut String, off: u64)
    ensures
        final (r)@ == old(r)@ + offset_hex(off as int),
{
    let ghost base = r@;
    let mut div: u64 = 0x10000000;
    proof {
        assert(pow16(0) == 1);
        assert(pow16(1) == 16);
        assert(pow16(2) == 256);
        assert(pow16(3) == 4096);
        assert(pow16(4) == 0x10000);
        assert(pow16(5) == 0x100000);
        assert(pow16(6) == 0x1000000);
        assert(pow16(7) == 0x10000000);
    }
    let mut d: usize = 0;
    while d < 8
        invariant
            0 <= d <= 8,
            d < 8 ==> div as int == pow16((7 - d) as nat),
            r@ == base + offset_hex(off as int).take(d as int),
        decreases 8 - d,
    {
        proof {
            lemma_pow16_pos((7 - d) as nat);
        }
        let digit: u64 = (off / div) % 16;
        let c = hex_digit(digit as u8);
        push_char(r, c);
        proof {
            assert(offset_hex(off as int)[d as int] == c);
            assert(offset_hex(off as int).take(d as int + 1) =~= offset_hex(off as int).take(
                d as int,
            ).push(c));
        }
        if d < 7 {
            proof {
                assert(pow16((7 - d) as nat) == 16 * pow16((7 - (d + 1)) as nat));
            }
            div = div / 16;
        }
        d += 1;
    }
    proof {
        assert(offset_hex(off as int).take(8) =~= offset_hex(off as int));
    }
}

fn append_hex_line(r: &mut String, off: u64, chunk: &[u8])
    requires
        1 <= chunk@.len() <= 16,
    ensures
        final (r)@ == old(r)@ + hex_line(off as int, chunk@),
{
    let ghost base = r@;
    append_offset(r, off);
    push_char(r, ' ');
    push_char(r, ' ');
    let ghost base_pairs = r@;
    let len: usize = chunk.len();
    let mut j: usize = 0;
    while j < len
        invariant
            0 <= j <= len,
            len == chunk@.len(),
            1 <= len <= 16,
            r@ == base_pairs + hex_pairs(chunk@.take(j as int)),
        decreases len - j,
    {
        if j > 0 {
            push_char(r, ' ');
        }
        let b = *slice_index_get(chunk, j);
        let hi = b / 16;
        let lo = b % 16;
        push_char(r, hex_digit(hi));
        push_char(r, hex_digit(lo));
        proof {
            let t = chunk@.take(j as int + 1);
            assert(t.drop_last() =~= chunk@.take(j as int));
            assert(t.last() == chunk@[j as int]);
            assert(r@ =~= base_pairs + hex_pairs(t));
        }
        j += 1;
    }
    proof {
        assert(chunk@.take(len as int) =~= chunk@);
        lemma_hex_pairs_len(chunk@);
    }
    let pad: usize = 48 - 3 * len;
    let ghost base_pad = r@;
    let mut p: usize = 0;
    while p < pad
        invariant
            0 <= p <= pad,
            r@ == base_pad + spaces(p as int),
        decreases pad - p,
    {
        push_char(r, ' ');
        proof {
            assert(spaces(p as int + 1) =~= spaces(p as int).push(' '));
        }
        p += 1;
    }
    proof {
        assert(spaces(pad as int) =~= spaces(47 - hex_pairs(chunk@).len()));
    }
    push_char(r, ' ');
    push_char(r, ' ');
    let ghost base_gut = r@;
    let mut g: usize = 0;
    while g < len
        invariant
            0 <= g <= len,
            len == chunk@.len(),
            r@ == base_gut + chunk@.map_values(|b: u8| gutter_char(b)).take(g as int),
        decreases len - g,
    {
        let b = *slice_index_get(chunk, g);
        let c: char = if 0x20 <= b && b <= 0x7e {
            b as char
        } else {
            '.'
        };
        push_char(r, c);
        proof {
            let m = chunk@.map_values(|b: u8| gutter_char(b));
            assert(m[g as int] == gutter_char(chunk@[g as int]));
            assert(m.take(g as int + 1) =~= m.take(g as int).push(c));
        }
        g += 1;
    }
    proof {
        let m = chunk@.map_values(|b: u8| gutter_char(b));
        assert(m.take(len as int) =~= m);
        assert(r@ =~= base + hex_line(off as int, chunk@));
    }
}

/// Renders a payload as its hex dump.
pub fn to_hex_view(data: &[u8]) -> (r: String)
    ensures
        r@ == spec_hex_view(data@),
{
    let mut r: String = String::from_str(
        "Hex View  00 01 02 03 04 05 06 07 08 09 0A 0B 0C 0D 0E 0F",
    );
    let n: usize = data.len();
    let nc: usize = n / 16 + if n % 16 != 0 {
        1usize
    } else {
        0usize
    };
    let mut k: usize = 0;
    while k < nc
        invariant
            n == data@.len(),
            nc == num_chunks(n as int),
            0 <= k <= nc,
            r@ == hex_header() + hex_body_upto(data@, k as int),
        decreases nc - k,
    {
        proof {
            assert(16 * (k as int) + 16 <= 16 * (nc as int));
            assert(16 * (nc as int) <= n + 15) by (nonlinear_arith)
                requires
                    nc == n as int / 16 + if n as int % 16 == 0 { 0int } else { 1int },
                    n >= 0,
            ;
            assert(16 * (k as int) < n) by (nonlinear_arith)
                requires
                    k < nc,
                    nc == n as int / 16 + if n as int % 16 == 0 { 0int } else { 1int },
                    n >= 0,
            ;
        }
        let off: usize = 16 * k;
        let end: usize = if n - off < 16 {
            n
        } else {
            off + 16
        };
        push_char(&mut r, '\n');
        let chunk: &[u8] = slice_subrange(data, off, end);
        proof {
            assert(chunk@ =~= chunk_at(data@, k as int));
        }
        append_hex_line(&mut r, off as u64, chunk);
        proof {
            assert(r@ =~= hex_header() + hex_body_upto(data@, k as int + 1));
        }
        k += 1;
    }
    r
}

/// How many times a character occurs in a sequence.
pub open spec fn count_char(s: Seq<char>, c: char) -> int
    decreases s.len(),
{
    if s.len() == 0 {
        0int
    } else {
        count_char(s.drop_last(), c) + if s.last() == c {
            1int
        } else {
            0int
        }
    }
}

proof fn lemma_count_char_add(a: Seq<char>, b: Seq<char>, c: char)
    ensures
        count_char(a + b, c) == count_char(a, c) + count_char(b, c),
    decreases b.len(),
{
    if b.len() == 0 {
        assert(a + b =~= a);
        assert(count_char(b, c) == 0);
    } else {
        lemma_count_char_add(a, b.drop_last(), c);
        assert((a + b).drop_last() =~= a + b.drop_last());
        assert((a + b).last() == b.last());
    }
}

proof fn lemma_count_char_none(s: Seq<char>, c: char)
    requires
        forall|i: int| 0 <= i < s.len() ==> s[i] != c,
    ensures
        count_char(s, c) == 0,
    decreases s.len(),
{
    if s.len() > 0 {
        lemma_count_char_none(s.drop_last(), c);
    }
}

proof fn lemma_hex_pairs_no_newline(chunk: Seq<u8>, i: int)
    requires
        0 <= i < hex_pairs(chunk).len(),
    ensures
        hex_pairs(chunk)[i] != '\n',
    decreases chunk.len(),
{
    assert(forall|n: int| hex_digit_char(n) != '\n');
    if chunk.len() <= 1 {
    } else {
        let pre = hex_pairs(chunk.drop_last());
        if i < pre.len() {
            lemma_hex_pairs_no_newline(chunk.drop_last(), i);
        }
    }
}

proof fn lemma_hex_line_no_newline(off: int, chunk: Seq<u8>)
    ensures
        count_char(hex_line(off, chunk), '\n') == 0,
{
    assert(forall|n: int| hex_digit_char(n) != '\n');
    assert(forall|b: u8| gutter_char(b) != '\n') by {
        assert(forall|b: u8| 0x20 <= b <= 0x7e ==> (#[trigger] (b as char)) as int == b as int);
    }
    let line = hex_line(off, chunk);
    assert(forall|i: int| 0 <= i < line.len() ==> line[i] != '\n') by {
        assert(forall|i: int|
            0 <= i < hex_pairs(chunk).len() ==> #[trigger] hex_pairs(chunk)[i] != '\n') by {
            assert forall|i: int| 0 <= i < hex_pairs(chunk).len() implies #[trigger] hex_pairs(
                chunk,
            )[i] != '\n' by {
                lemma_hex_pairs_no_newline(chunk, i);
            }
        }
        assert(forall|i: int|
            0 <= i < chunk.len() ==> chunk.map_values(|b: u8| gutter_char(b))[i] == gutter_char(
                #[trigger] chunk[i],
            ));
    }
    lemma_count_char_none(line, '\n');
}

proof fn lemma_hex_body_newlines(data: Seq<u8>, k: int)
    requires
        k >= 0,
    ensures
        count_char(hex_body_upto(data, k), '\n') == k,
    decreases k,
{
    if k > 0 {
        lemma_hex_body_newlines(data, k - 1);
        let line = hex_line(16 * (k - 1), chunk_at(data, k - 1));
        lemma_hex_line_no_newline(16 * (k - 1), chunk_at(data, k - 1));
        lemma_count_char_add(hex_body_upto(data, k - 1), seq!['\n'], '\n');
        lemma_count_char_add(hex_body_upto(data, k - 1) + seq!['\n'], line, '\n');
        assert(count_char(seq!['\n'], '\n') == 1) by {
            assert(seq!['\n'].drop_last() =~= Seq::<char>::empty());
            assert(count_char(Seq::<char>::empty(), '\n') == 0);
        }
    }
}

proof fn lemma_header_no_newline()
    ensures
        count_char(hex_header(), '\n') == 0,
{
    reveal_strlit("Hex View  00 01 02 03 04 05 06 07 08 09 0A 0B 0C 0D 0E 0F");
    assert(forall|i: int| 0 <= i < hex_header().len() ==> hex_header()[i] != '\n');
    lemma_count_char_none(hex_header(), '\n');
}

/// Shape of the hex dump. The view holds exactly one header line plus
/// ceil(N/16) data lines for an N-byte payload — each data line introduced by
/// one newline, and no other newline anywhere. Line `k` renders the chunk at
/// offset `16 * k` (the offsets rise by 16, starting at 0, as the unfolding
/// fact below states). For a non-empty payload the dump ends with the ASCII
/// gutter of the final, possibly short, chunk: its length is exactly the byte
/// count of that chunk.
pub proof fn lemma_hex_view_shape(data: Seq<u8>)
    ensures
        count_char(spec_hex_view(data), '\n') == (data.len() + 15) as int / 16,
        forall|k: int|
            0 <= k ==> hex_body_upto(data, k + 1) == hex_body_upto(data, k) + seq!['\n']
                + hex_line(16 * k, #[trigger] chunk_at(data, k)),
        data.len() > 0 ==> {
            let last = chunk_at(data, num_chunks(data.len() as int) - 1);
            let v = spec_hex_view(data);
            v.len() >= last.len() && v.skip(v.len() - last.len()) == last.map_values(
                |b: u8| gutter_char(b),
            )
        },
{
    let n = data.len() as int;
    let nc = num_chunks(n);
    assert(n / 16 + (if n % 16 == 0 { 0int } else { 1int }) == (n + 15) / 16)
        by (nonlinear_arith)
        requires n >= 0,
    ;
    lemma_header_no_newline();
    lemma_hex_body_newlines(data, nc);
    lemma_count_char_add(hex_header(), hex_body_upto(data, nc), '\n');
    if data.len() > 0 {
        let last = chunk_at(data, nc - 1);
        let gut = last.map_values(|b: u8| gutter_char(b));
        let v = spec_hex_view(data);
        assert(hex_body_upto(data, nc) == hex_body_upto(data, nc - 1) + seq!['\n'] + hex_line(
            16 * (nc - 1),
            last,
        ));
        assert(v.skip(v.len() - last.len()) =~= gut);
    }
}

} // verus!
