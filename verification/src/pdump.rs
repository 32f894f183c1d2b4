//! Printable hexdump.
//!
//! Renders a byte sequence as the classic sixteen-bytes-per-line dump: a
//! six-digit hex offset, the bytes in hex with an extra gap after the eighth,
//! and an ASCII column where every byte outside the printable range shows as
//! a dot.  Diagnostic output only; nothing may base a correctness decision on
//! it.

use vstd::prelude::*;
use vstd::string::StringExecFns;

verus! {

/// The sixteen lowercase hex digit characters.
pub open spec fn hex_digit(d: int) -> char {
    if d == 0 {
        '0'
    } else if d == 1 {
        '1'
    } else if d == 2 {
        '2'
    } else if d == 3 {
        '3'
    } else if d == 4 {
        '4'
    } else if d == 5 {
        '5'
    } else if d == 6 {
        '6'
    } else if d == 7 {
        '7'
    } else if d == 8 {
        '8'
    } else if d == 9 {
        '9'
    } else if d == 10 {
        'a'
    } else if d == 11 {
        'b'
    } else if d == 12 {
        'c'
    } else if d == 13 {
        'd'
    } else if d == 14 {
        'e'
    } else {
        'f'
    }
}

/// The hex rendering of `v`, zero-padded to at least `width` digits.
pub open spec fn hex_num(v: nat, width: nat) -> Seq<char>
    decreases v, width,
{
    if v < 16 && width <= 1 {
        seq![hex_digit(v as int)]
    } else {
        hex_num(v / 16, if width == 0 {
            0
        } else {
            (width - 1) as nat
        }).push(hex_digit((v % 16) as int))
    }
}

/// How one byte shows in the ASCII column: itself if printable, a dot
/// otherwise.
pub open spec fn ascii_char(b: u8) -> char {
    if 32 <= b && b <= 126 {
        b as char
    } else {
        '.'
    }
}

/// The hex column's cell for the byte at position `i` of its line: a leading
/// space, two hex digits, and one extra space before the ninth byte.
pub open spec fn hex_cell(i: int, b: u8) -> Seq<char> {
    (if i == 8 {
        seq![' ']
    } else {
        Seq::<char>::empty()
    }) + seq![' ', hex_digit(b as int / 16), hex_digit(b as int % 16)]
}

/// The hex column for one (possibly short) line of bytes.
pub open spec fn hex_field(chunk: Seq<u8>) -> Seq<char>
    decreases chunk.len(),
{
    if chunk.len() == 0 {
        Seq::empty()
    } else {
        hex_field(chunk.drop_last()) + hex_cell(chunk.len() - 1, chunk.last())
    }
}

/// The ASCII column for one line of bytes.
pub open spec fn ascii_field(chunk: Seq<u8>) -> Seq<char> {
    Seq::new(chunk.len(), |i: int| ascii_char(chunk[i]))
}

/// `n` spaces.
pub open spec fn spaces(n: nat) -> Seq<char> {
    Seq::new(n, |i: int| ' ')
}

/// `s`, space-padded on the right to at least `w` characters.
pub open spec fn pad_to(s: Seq<char>, w: nat) -> Seq<char> {
    if s.len() >= w {
        s
    } else {
        s + spaces((w - s.len()) as nat)
    }
}

/// One rendered line: prefix, six-digit hex offset, the hex column padded to
/// the full-line width of 49, and the ASCII column between pipes.
pub open spec fn dump_line(prefix: Seq<char>, offset: nat, chunk: Seq<u8>) -> Seq<char> {
    prefix + hex_num(offset, 6) + seq![' '] + pad_to(hex_field(chunk), 49) + seq![' ', '|']
        + ascii_field(chunk) + seq!['|', '\n']
}

/// The bytes of line `j`: sixteen of them, fewer on the last line.
pub open spec fn chunk_of(bytes: Seq<u8>, j: int) -> Seq<u8> {
    bytes.subrange(
        16 * j,
        if 16 * j + 16 <= bytes.len() {
            16 * j + 16
        } else {
            bytes.len() as int
        },
    )
}

/// How many lines a dump of `len` bytes takes.
pub open spec fn num_chunks(len: nat) -> nat {
    ((len + 15) / 16) as nat
}

/// The first `j` rendered lines, in order, with running offsets.
pub open spec fn dump_lines(prefix: Seq<char>, bytes: Seq<u8>, j: nat) -> Seq<char>
    decreases j,
{
    if j == 0 {
        Seq::empty()
    } else {
        dump_lines(prefix, bytes, (j - 1) as nat) + dump_line(
            prefix,
            (16 * (j - 1)) as nat,
            chunk_of(bytes, j - 1 as int),
        )
    }
}

/// The whole rendering of a byte sequence, every line carrying the prefix.
pub open spec fn hexdump_of(prefix: Seq<char>, bytes: Seq<u8>) -> Seq<char> {
    dump_lines(prefix, bytes, num_chunks(bytes.len()))
}

/// The hex column's width: three characters per byte plus the mid-line gap.
pub proof fn lemma_hex_field_len(chunk: Seq<u8>)
    ensures
        hex_field(chunk).len() == 3 * chunk.len() + if chunk.len() > 8 {
            1int
        } else {
            0int
        },
    decreases chunk.len(),
{
    if chunk.len() > 0 {
        lemma_hex_field_len(chunk.drop_last());
    }
}

/// The first `j` lines depend only on the first `16 * j` bytes.
pub proof fn lemma_dump_lines_agree(prefix: Seq<char>, bytes1: Seq<u8>, bytes2: Seq<u8>, j: nat)
    requires
        16 * j <= bytes1.len(),
        16 * j <= bytes2.len(),
        forall|i: int| 0 <= i < 16 * j ==> bytes1[i] == bytes2[i],
    ensures
        dump_lines(prefix, bytes1, j) == dump_lines(prefix, bytes2, j),
    decreases j,
{
    if j > 0 {
        lemma_dump_lines_agree(prefix, bytes1, bytes2, (j - 1) as nat);
        assert(chunk_of(bytes1, j - 1) =~= chunk_of(bytes2, j - 1));
    }
}

/// Relies on `alloc::string::String::push`: appends the given character to
/// the end of the string.
pub assume_specification[ String::push ](s: &mut String, ch: char)
    ensures
        final(s)@ == old(s)@.push(ch),
;

/// One lowercase hex digit character.
fn hex_digit_char(d: u8) -> (c: char)
    requires
        d < 16,
    ensures
        c == hex_digit(d as int),
{
    match d {
        0 => '0',
        1 => '1',
        2 => '2',
        3 => '3',
        4 => '4',
        5 => '5',
        6 => '6',
        7 => '7',
        8 => '8',
        9 => '9',
        10 => 'a',
        11 => 'b',
        12 => 'c',
        13 => 'd',
        14 => 'e',
        _ => 'f',
    }
}

/// Append the hex rendering of `v`, zero-padded to at least `width` digits.
fn push_hex(out: &mut String, v: usize, width: usize)
    ensures
        final(out)@ == old(out)@ + hex_num(v as nat, width as nat),
    decreases v, width,
{
    if v < 16 && width <= 1 {
        out.push(hex_digit_char((v % 16) as u8));
        assert(out@ =~= old(out)@ + hex_num(v as nat, width as nat));
    } else {
        push_hex(out, v / 16, if width == 0 {
            0
        } else {
            width - 1
        });
        out.push(hex_digit_char((v % 16) as u8));
        assert(out@ =~= old(out)@ + hex_num(v as nat, width as nat));
    }
}

/// Append `n` spaces.
fn push_spaces(out: &mut String, n: usize)
    ensures
        final(out)@ == old(out)@ + spaces(n as nat),
{
    let mut i: usize = 0;
    proof {
        assert(out@ =~= old(out)@ + spaces(0));
    }
    while i < n
        invariant
            i <= n,
            out@ == old(out)@ + spaces(i as nat),
        decreases n - i,
    {
        out.push(' ');
        i = i + 1;
        proof {
            assert(out@ =~= old(out)@ + spaces(i as nat));
        }
    }
}

/// A view of a byte slice that renders as a hexdump.
pub struct HexDumper<'a>(pub &'a [u8]);

/// Accumulates one line at a time: the hex and ASCII columns grow byte by
/// byte and are shipped as a full rendered line every sixteen bytes, and
/// once more at the end for a final short line.
struct FmtDump {
    out: String,
    hex: String,
    ascii: String,
    count: usize,
    total_count: usize,
    prefix: String,
    fed_bytes: Ghost<Seq<u8>>,
}

impl FmtDump {
    /// Everything rendered so far.
    closed spec fn output(&self) -> Seq<char> {
        self.out@
    }

    /// Every byte added so far.
    closed spec fn fed(&self) -> Seq<u8> {
        self.fed_bytes@
    }

    /// The per-line prefix.
    closed spec fn pre(&self) -> Seq<char> {
        self.prefix@
    }

    /// How many bytes of the current line are pending.
    closed spec fn cnt(&self) -> usize {
        self.count
    }

    /// The offset of the current line: sixteen times the lines shipped.
    closed spec fn total(&self) -> usize {
        self.total_count
    }

    /// The pending hex column.
    closed spec fn hex_acc(&self) -> Seq<char> {
        self.hex@
    }

    /// The pending ASCII column.
    closed spec fn ascii_acc(&self) -> Seq<char> {
        self.ascii@
    }

    /// The pending bytes of the current line.
    closed spec fn cur_chunk(&self) -> Seq<u8> {
        self.fed_bytes@.skip(self.total_count as int)
    }

    /// The accumulator state: the output holds the shipped lines, the hex
    /// and ASCII columns hold exactly the pending bytes' rendering.
    closed spec fn wf(&self) -> bool {
        &&& self.fed_bytes@.len() == self.total_count + self.count
        &&& self.count <= 16
        &&& self.total_count % 16 == 0
        &&& self.out@ == dump_lines(self.prefix@, self.fed_bytes@, (self.total_count / 16) as nat)
        &&& self.hex@ == hex_field(self.cur_chunk())
        &&& self.ascii@ == ascii_field(self.cur_chunk())
    }

    /// A fresh accumulator carrying the given line prefix.
    fn new(prefix: &str) -> (d: FmtDump)
        ensures
            d.wf(),
            d.fed() == Seq::<u8>::empty(),
            d.pre() == prefix@,
            d.cnt() == 0,
            d.total() == 0,
            d.output() == Seq::<char>::empty(),
    {
        let d = FmtDump {
            out: String::new(),
            hex: String::new(),
            ascii: String::new(),
            count: 0,
            total_count: 0,
            prefix: String::from_str(prefix),
            fed_bytes: Ghost(Seq::empty()),
        };
        proof {
            assert(d.cur_chunk() =~= Seq::<u8>::empty());
            assert(ascii_field(d.cur_chunk()) =~= Seq::<char>::empty());
        }
        d
    }

    /// Render and append the pending line, if there is one, and start the
    /// next.  Does nothing on an empty line.
    fn ship(&mut self)
        requires
            old(self).wf(),
            old(self).total() + 32 <= usize::MAX,
        ensures
            final(self).fed() == old(self).fed(),
            final(self).pre() == old(self).pre(),
            if old(self).cnt() == 0 {
                *final(self) == *old(self)
            } else {
                &&& final(self).output() == old(self).output() + dump_line(
                    old(self).pre(),
                    old(self).total() as nat,
                    old(self).cur_chunk(),
                )
                &&& final(self).cnt() == 0
                &&& final(self).total() == old(self).total() + 16
                &&& final(self).hex_acc() == Seq::<char>::empty()
                &&& final(self).ascii_acc() == Seq::<char>::empty()
            },
    {
        if self.count == 0 {
            return ;
        }
        let ghost chunk = self.cur_chunk();
        let ghost out0 = self.out@;
        self.out.append(self.prefix.as_str());
        push_hex(&mut self.out, self.total_count, 6);
        self.out.push(' ');
        self.out.append(self.hex.as_str());
        // Pad the hex column to the full-line width.
        proof {
            lemma_hex_field_len(chunk);
        }
        let used = 3 * self.count + (if self.count > 8 {
            1
        } else {
            0
        });
        push_spaces(&mut self.out, 49 - used);
        proof {
            assert(pad_to(hex_field(chunk), 49) =~= hex_field(chunk) + spaces(
                (49 - used) as nat,
            ));
        }
        self.out.push(' ');
        self.out.push('|');
        self.out.append(self.ascii.as_str());
        self.out.push('|');
        self.out.push('\n');
        self.hex = String::new();
        self.ascii = String::new();
        self.total_count = self.total_count + 16;
        self.count = 0;
        proof {
            assert(self.out@ =~= out0 + dump_line(
                self.prefix@,
                old(self).total() as nat,
                chunk,
            ));
        }
    }

    /// Feed one byte: ship the line if sixteen are pending, then extend the
    /// hex and ASCII columns.
    fn add_byte(&mut self, ch: u8)
        requires
            old(self).wf(),
            old(self).fed().len() + 32 <= usize::MAX,
        ensures
            final(self).wf(),
            final(self).fed() == old(self).fed().push(ch),
            final(self).pre() == old(self).pre(),
    {
        if self.count == 16 {
            self.ship();
            proof {
                let fed = self.fed_bytes@;
                let q = (old(self).total() / 16) as nat;
                vstd::arithmetic::div_mod::lemma_fundamental_div_mod(
                    old(self).total() as int,
                    16,
                );
                vstd::arithmetic::div_mod::lemma_fundamental_div_mod_converse(
                    old(self).total() as int + 16,
                    16,
                    q as int + 1,
                    0,
                );
                assert(chunk_of(fed, q as int) =~= old(self).cur_chunk());
                assert(self.out@ == dump_lines(self.prefix@, fed, (q + 1) as nat));
                assert(self.cur_chunk() =~= Seq::<u8>::empty());
                assert(ascii_field(self.cur_chunk()) =~= Seq::<char>::empty());
                assert(self.wf());
            }
        }
        let ghost mid = *self;
        let ghost cur = self.cur_chunk();
        if self.count == 8 {
            self.hex.push(' ');
        }
        self.hex.push(' ');
        self.hex.push(hex_digit_char(ch / 16));
        self.hex.push(hex_digit_char(ch % 16));
        if 32 <= ch && ch <= 126 {
            self.ascii.push(ch as char);
        } else {
            self.ascii.push('.');
        }
        self.count = self.count + 1;
        proof {
            self.fed_bytes@ = self.fed_bytes@.push(ch);
            let fed = self.fed_bytes@;
            let cur2 = self.cur_chunk();
            assert(cur2 =~= cur.push(ch));
            assert(cur2.drop_last() =~= cur);
            assert(self.hex@ =~= hex_field(cur) + hex_cell(cur.len() as int, ch));
            assert(self.hex@ == hex_field(cur2));
            assert(self.ascii@ =~= ascii_field(cur2));
            vstd::arithmetic::div_mod::lemma_fundamental_div_mod(mid.total() as int, 16);
            lemma_dump_lines_agree(
                self.prefix@,
                mid.fed(),
                fed,
                (mid.total() / 16) as nat,
            );
            assert(self.wf());
        }
    }

    /// Hand out everything rendered.
    fn into_output(self) -> (s: String)
        ensures
            s@ == self.output(),
    {
        self.out
    }
}

impl<'a> HexDumper<'a> {
    /// Render the bytes as a hexdump with the given prefix at the start of
    /// every line.
    pub fn fmt_prefix(&self, prefix: &str) -> (s: String)
        requires
            self.0@.len() + 32 <= usize::MAX,
        ensures
            s@ == hexdump_of(prefix@, self.0@),
    {
        let bytes = self.0;
        let mut dmp = FmtDump::new(prefix);
        let n = bytes.len();
        let mut i: usize = 0;
        proof {
            assert(bytes@.take(0) =~= Seq::<u8>::empty());
        }
        while i < n
            invariant
                dmp.wf(),
                i <= n,
                n == bytes@.len(),
                n + 32 <= usize::MAX,
                dmp.fed() == bytes@.take(i as int),
                dmp.pre() == prefix@,
            decreases n - i,
        {
            let ch = bytes[i];
            dmp.add_byte(ch);
            i = i + 1;
            proof {
                assert(dmp.fed() =~= bytes@.take(i as int));
            }
        }
        proof {
            assert(bytes@.take(n as int) =~= bytes@);
        }
        let ghost q = (dmp.total() / 16) as nat;
        proof {
            vstd::arithmetic::div_mod::lemma_fundamental_div_mod(dmp.total() as int, 16);
            if dmp.cnt() == 0 {
                vstd::arithmetic::div_mod::lemma_fundamental_div_mod_converse(
                    dmp.total() as int + 15,
                    16,
                    q as int,
                    15,
                );
                assert(num_chunks(bytes@.len()) == q);
            } else {
                vstd::arithmetic::div_mod::lemma_fundamental_div_mod_converse(
                    dmp.total() as int + dmp.cnt() + 15,
                    16,
                    q as int + 1,
                    dmp.cnt() - 1,
                );
                assert(num_chunks(bytes@.len()) == q + 1);
                assert(chunk_of(bytes@, q as int) =~= dmp.cur_chunk());
            }
        }
        dmp.ship();
        dmp.into_output()
    }

    /// Render the bytes as a plain hexdump, no prefix.
    pub fn render(&self) -> (s: String)
        requires
            self.0@.len() + 32 <= usize::MAX,
        ensures
            s@ == hexdump_of(Seq::<char>::empty(), self.0@),
    {
        let s = self.fmt_prefix("");
        proof {
            reveal_strlit("");
            assert(""@ =~= Seq::<char>::empty());
        }
        s
    }
}

/// Something that can render itself as a hexdump.
pub trait HexDump {
    /// The bytes the dump renders.
    spec fn dump_model(&self) -> Seq<u8>;

    /// The rendered dump: sixteen bytes per line, offset prefix, hex and
    /// ASCII columns.
    fn dump(&self) -> (s: String)
        requires
            self.dump_model().len() + 32 <= usize::MAX,
        ensures
            s@ == hexdump_of(Seq::<char>::empty(), self.dump_model()),
    ;
}

impl HexDump for Vec<u8> {
    open spec fn dump_model(&self) -> Seq<u8> {
        self@
    }

    fn dump(&self) -> (s: String) {
        HexDumper(self.as_slice()).render()
    }
}

impl<'a> HexDump for &'a [u8] {
    open spec fn dump_model(&self) -> Seq<u8> {
        (*self)@
    }

    fn dump(&self) -> (s: String) {
        HexDumper(*self).render()
    }
}

} // verus!
