//! Interrupt statistics: soft-IRQ numbering, the entries seeded from
//! `/proc/interrupts`, and the assembly of an [`IrqData`] snapshot from the
//! per-CPU counter map and the name map.

use crate::bytes::{le_u64, read_u32, read_u64, u64_le_bytes, le_u32};
use crate::text::{
    lines, parse_u32, parse_u64, parse_unsigned, parse_usize, split_lines, split_words, tokens,
};
use crate::types::{IrqData, IrqStats, MAX_IRQS};
use vstd::prelude::*;
use vstd::string::{StrSliceExecFns, StringSliceAdditionalSpecFns};
use vstd::utf8::encode_utf8;

verus! {

/// Soft-IRQ vectors are tracked under IRQ numbers with this bit set.
pub const SOFTIRQ_BASE: u32 = 0x80000000;

/// The IRQ number stands for a soft-IRQ vector.
pub fn is_softirq(irq: u32) -> (r: bool)
    ensures
        r == (irq >= SOFTIRQ_BASE),
{
    let r = irq & SOFTIRQ_BASE != 0;
    assert((irq & 0x80000000u32 != 0) == (irq >= 0x80000000u32)) by (bit_vector);
    r
}

/// The soft-IRQ vector of a soft-IRQ number; `None` for a hardware IRQ.
pub fn softirq_vec(irq: u32) -> (r: Option<u32>)
    ensures
        r == (if irq >= SOFTIRQ_BASE {
            Some((irq - SOFTIRQ_BASE) as u32)
        } else {
            None
        }),
{
    if is_softirq(irq) {
        let v = irq & !SOFTIRQ_BASE;
        assert(irq >= 0x80000000u32 ==> irq & !0x80000000u32 == irq - 0x80000000u32)
            by (bit_vector);
        Some(v)
    } else {
        None
    }
}

/// Every soft-IRQ vector below `SOFTIRQ_BASE` is given back by `softirq_vec`
/// from its soft-IRQ number, and that number is a soft-IRQ.
pub proof fn law_softirq_number_roundtrip(v: u32)
    requires
        v < SOFTIRQ_BASE,
    ensures
        (SOFTIRQ_BASE + v) as u32 >= SOFTIRQ_BASE,
        ((SOFTIRQ_BASE + v) as u32 - SOFTIRQ_BASE) as u32 == v,
{
}

/// One interrupt line of `/proc/interrupts`, as seeded into the maps.
pub struct IrqSeedSpec {
    pub irq: u32,
    pub per_cpu: Seq<u64>,
    pub chip: Seq<u8>,
    pub action: Seq<u8>,
}

/// One interrupt line of `/proc/interrupts`: its number, its count on each
/// CPU column, its chip name and its action name.
pub struct IrqSeed {
    pub irq: u32,
    pub per_cpu: Vec<u64>,
    pub chip: Vec<u8>,
    pub action: Vec<u8>,
}

impl View for IrqSeed {
    type V = IrqSeedSpec;

    open spec fn view(&self) -> IrqSeedSpec {
        IrqSeedSpec { irq: self.irq, per_cpu: self.per_cpu@, chip: self.chip@, action: self.action@ }
    }
}

/// `t` with every trailing `:` removed.
pub open spec fn strip_colons(t: Seq<u8>) -> Seq<u8>
    decreases t.len(),
{
    if t.len() > 0 && t.last() == 58 {
        strip_colons(t.drop_last())
    } else {
        t
    }
}

/// A per-CPU count column: its number, or 0 when it is no number.
pub open spec fn count_or_zero(t: Seq<u8>) -> u64 {
    match parse_unsigned(t, u64::MAX as nat) {
        Some(v) => v as u64,
        None => 0,
    }
}

/// The entry that a line with the words `w` gives when the header names
/// `nr` CPU columns: a numbered line with at least `nr + 1` words; the chip
/// is the first word after the counts, the action the last of at least two.
pub open spec fn interrupt_line(w: Seq<Seq<u8>>, nr: nat) -> Option<IrqSeedSpec> {
    if w.len() < nr + 1 {
        None
    } else {
        match parse_unsigned(strip_colons(w[0]), u32::MAX as nat) {
            None => None,
            Some(irq) => Some(
                IrqSeedSpec {
                    irq: irq as u32,
                    per_cpu: Seq::new(nr, |i: int| count_or_zero(w[i + 1])),
                    chip: if w.len() > nr + 1 {
                        w[nr + 1 as int]
                    } else {
                        seq![]
                    },
                    action: if w.len() >= nr + 3 {
                        w.last()
                    } else {
                        seq![]
                    },
                },
            ),
        }
    }
}

/// A numbered line of `/proc/interrupts` whose words `w` hold, after the
/// number and the `nr` CPU count columns, at least two more words (a chip and
/// an action, perhaps with hardware-IRQ and trigger words between them)
/// seeds the chip as the first of those words and the action as the line's
/// last word, one count per CPU column, and the line's number as its IRQ.
pub proof fn law_interrupt_line_fields(w: Seq<Seq<u8>>, nr: nat)
    requires
        w.len() >= nr + 3,
        parse_unsigned(strip_colons(w[0]), u32::MAX as nat) is Some,
    ensures
        interrupt_line(w, nr) matches Some(e) && {
            &&& e.irq == parse_unsigned(strip_colons(w[0]), u32::MAX as nat)->0
            &&& e.chip == w[nr + 1 as int]
            &&& e.action == w[w.len() - 1]
            &&& e.per_cpu.len() == nr
            &&& forall|i: int| 0 <= i < nr ==> e.per_cpu[i] == count_or_zero(#[trigger] w[i + 1])
        },
{
}

/// Words between the chip and the action do not change what a line seeds:
/// inserting one more word anywhere after the chip and before the last word
/// leaves the entry as it was.
pub proof fn law_interrupt_line_ignores_middle_words(
    w: Seq<Seq<u8>>,
    nr: nat,
    k: int,
    extra: Seq<u8>,
)
    requires
        w.len() >= nr + 3,
        nr + 2 <= k < w.len(),
    ensures
        interrupt_line(w.insert(k, extra), nr) == interrupt_line(w, nr),
{
    let v = w.insert(k, extra);
    assert(v[0] == w[0]);
    assert(v[nr + 1 as int] == w[nr + 1 as int]);
    assert(v.last() == w.last());
    match interrupt_line(w, nr) {
        Some(e) => {
            let f = interrupt_line(v, nr)->0;
            assert(f.per_cpu =~= e.per_cpu);
        },
        None => {},
    }
}

/// A numbered line with exactly one word after its CPU columns seeds that
/// word as the chip and no action; with none, neither.
pub proof fn law_interrupt_line_short_tail(w: Seq<Seq<u8>>, nr: nat)
    requires
        nr + 1 <= w.len() <= nr + 2,
        parse_unsigned(strip_colons(w[0]), u32::MAX as nat) is Some,
    ensures
        interrupt_line(w, nr) matches Some(e) && e.action == Seq::<u8>::empty() && (
        if w.len() == nr + 2 {
            e.chip == w[nr + 1 as int]
        } else {
            e.chip == Seq::<u8>::empty()
        }),
{
}

/// The entries of the lines `ls`, in order.
pub open spec fn interrupt_lines(ls: Seq<Seq<u8>>, nr: nat) -> Seq<IrqSeedSpec>
    decreases ls.len(),
{
    if ls.len() == 0 {
        seq![]
    } else {
        let first = match interrupt_line(tokens(ls[0]), nr) {
            Some(e) => seq![e],
            None => seq![],
        };
        first + interrupt_lines(ls.skip(1), nr)
    }
}

/// The entries of `/proc/interrupts` text: the first line names one CPU
/// column per word; lines of architecture counters (not numbered) are left out.
pub open spec fn interrupt_entries(content: Seq<u8>) -> Seq<IrqSeedSpec> {
    let ls = lines(content);
    if ls.len() == 0 {
        seq![]
    } else {
        interrupt_lines(ls.skip(1), tokens(ls[0]).len())
    }
}

fn strip_trailing_colons(t: &Vec<u8>) -> (r: Vec<u8>)
    ensures
        r@ == strip_colons(t@),
{
    let mut end = t.len();
    assert(t@.take(end as int) =~= t@);
    while end > 0 && t[end - 1] == 58
        invariant
            end <= t@.len(),
            strip_colons(t@) == strip_colons(t@.take(end as int)),
        decreases end,
    {
        assert(t@.take(end as int).drop_last() =~= t@.take(end - 1));
        end = end - 1;
    }
    let r = vstd::slice::slice_to_vec(&t.as_slice()[0..end]);
    assert(r@ =~= t@.take(end as int));
    r
}

/// The entry of one line's words, if the line is an interrupt line.
fn parse_interrupt_line(w: &Vec<Vec<u8>>, nr: usize) -> (r: Option<IrqSeed>)
    ensures
        r matches Some(e) ==> interrupt_line(w.deep_view(), nr as nat) == Some(e@),
        r is None ==> interrupt_line(w.deep_view(), nr as nat) is None,
{
    let ghost wv = w.deep_view();
    if w.len() == 0 || w.len() - 1 < nr {
        return None;
    }
    assert(wv[0] == w@[0]@);
    let label = strip_trailing_colons(&w[0]);
    let irq = match parse_u32(label.as_slice()) {
        Some(v) => v,
        None => return None,
    };
    let mut per_cpu: Vec<u64> = Vec::new();
    let mut i: usize = 0;
    while i < nr
        invariant
            wv == w.deep_view(),
            nr + 1 <= w@.len(),
            i <= nr,
            per_cpu@.len() == i,
            forall|j: int| 0 <= j < i ==> per_cpu@[j] == count_or_zero(#[trigger] wv[j + 1]),
        decreases nr - i,
    {
        assert(wv[i + 1] == w@[i + 1]@);
        let c = match parse_u64(w[i + 1].as_slice()) {
            Some(v) => v,
            None => 0,
        };
        per_cpu.push(c);
        i = i + 1;
    }
    let chip = if w.len() > nr + 1 {
        assert(wv[nr + 1] == w@[nr + 1]@);
        w[nr + 1].clone()
    } else {
        Vec::new()
    };
    let action = if w.len() - nr >= 3 {
        assert(wv.last() == w@[w.len() - 1]@);
        w[w.len() - 1].clone()
    } else {
        Vec::new()
    };
    let e = IrqSeed { irq, per_cpu, chip, action };
    assert(e@.per_cpu =~= Seq::new(nr as nat, |i: int| count_or_zero(wv[i + 1])));
    assert(e@.chip =~= (if wv.len() > nr + 1 { wv[nr + 1] } else { seq![] }));
    assert(e@.action =~= (if wv.len() >= nr + 3 { wv.last() } else { seq![] }));
    Some(e)
}

/// Parses `/proc/interrupts` text into the interrupt lines that seed the
/// interrupt maps.
pub fn parse_interrupts(content: &str) -> (r: Vec<IrqSeed>)
    ensures
        r@.map_values(|e: IrqSeed| e@) == interrupt_entries(content.spec_bytes()),
{
    let bytes = content.as_bytes();
    let ls = split_lines(bytes);
    let ghost lv = ls.deep_view();
    let mut out: Vec<IrqSeed> = Vec::new();
    if ls.len() == 0 {
        assert(out@.map_values(|e: IrqSeed| e@) =~= Seq::<IrqSeedSpec>::empty());
        return out;
    }
    let header = split_words(ls[0].as_slice());
    assert(lv[0] == ls@[0]@);
    let nr = header.len();
    let mut i: usize = 1;
    while i < ls.len()
        invariant
            lv == ls.deep_view(),
            lv == lines(bytes@),
            1 <= i <= ls@.len(),
            nr == tokens(lv[0]).len(),
            interrupt_lines(lv.skip(1), nr as nat) == out@.map_values(|e: IrqSeed| e@)
                + interrupt_lines(lv.skip(i as int), nr as nat),
        decreases ls@.len() - i,
    {
        let words = split_words(ls[i].as_slice());
        assert(lv[i as int] == ls@[i as int]@);
        let ghost before = out@.map_values(|e: IrqSeed| e@);
        let ghost rest = lv.skip(i as int);
        assert(rest[0] == lv[i as int]);
        assert(rest.skip(1) =~= lv.skip(i + 1));
        match parse_interrupt_line(&words, nr) {
            Some(e) => {
                out.push(e);
                assert(out@.map_values(|e: IrqSeed| e@) =~= before.push(e@));
            },
            None => {},
        }
        proof {
            assert(before + interrupt_lines(rest, nr as nat) =~= out@.map_values(|e: IrqSeed| e@)
                + interrupt_lines(lv.skip(i + 1), nr as nat));
        }
        i = i + 1;
    }
    assert(lv.skip(i as int) =~= Seq::<Seq<u8>>::empty());
    assert(out@.map_values(|e: IrqSeed| e@) + Seq::<IrqSeedSpec>::empty() =~= out@.map_values(
        |e: IrqSeed| e@,
    ));
    out
}

/// The number of bytes of `s` before its first NUL byte.
pub open spec fn nul_pos(s: Seq<u8>) -> nat
    decreases s.len(),
{
    if s.len() == 0 || s[0] == 0 {
        0
    } else {
        1 + nul_pos(s.skip(1))
    }
}

/// Facts about the position of the first NUL byte.
pub proof fn lemma_nul_pos(s: Seq<u8>)
    ensures
        nul_pos(s) <= s.len(),
        nul_pos(s) < s.len() ==> s[nul_pos(s) as int] == 0,
        forall|j: int| 0 <= j < nul_pos(s) ==> s[j] != 0,
    decreases s.len(),
{
    if s.len() > 0 && s[0] != 0 {
        lemma_nul_pos(s.skip(1));
        assert forall|j: int| 0 <= j < nul_pos(s) implies s[j] != 0 by {
            if j > 0 {
                assert(s[j] == s.skip(1)[j - 1]);
            }
        }
    }
}

/// `s` followed by zero bytes up to length `n`.
pub open spec fn zero_padded(s: Seq<u8>, n: nat) -> Seq<u8> {
    Seq::new(n, |i: int| if i < s.len() { s[i] } else { 0u8 })
}

/// The name kept in an `n`-byte field: the field's bytes before its first
/// NUL, followed by zero bytes.
pub open spec fn name_field(field: Seq<u8>, n: nat) -> Seq<u8> {
    zero_padded(field.take(nul_pos(field.take(n as int)) as int), n)
}

/// Copies the name kept in the `N` bytes at `off`: its bytes before the first
/// NUL, then zero bytes.
fn copy_name<const N: usize>(b: &[u8], off: usize) -> (r: [u8; N])
    requires
        off + N <= b@.len(),
    ensures
        r@ == name_field(b@.skip(off as int), N as nat),
{
    let n = b.len();
    let ghost field = b@.skip(off as int).take(N as int);
    let mut end: usize = 0;
    assert(field.skip(0) =~= field);
    while end < N && b[off + end] != 0
        invariant
            n == b@.len(),
            off + N <= n,
            end <= N,
            field == b@.skip(off as int).take(N as int),
            nul_pos(field) == end + nul_pos(field.skip(end as int)),
        decreases N - end,
    {
        assert(field.skip(end as int).skip(1) =~= field.skip(end + 1));
        end = end + 1;
    }
    assert(nul_pos(field) == end);
    let mut r = [0u8; N];
    let mut i: usize = 0;
    while i < end
        invariant
            n == b@.len(),
            off + N <= n,
            end <= N,
            i <= end,
            r@.len() == N,
            forall|j: int| 0 <= j < i ==> r@[j] == b@[off + j],
            forall|j: int| i <= j < N ==> r@[j] == 0,
        decreases end - i,
    {
        r[i] = b[off + i];
        i = i + 1;
    }
    assert(r@ =~= name_field(b@.skip(off as int), N as nat));
    r
}

/// The chip and action names kept in an interrupt's 96 name bytes: the chip
/// in the first 32, the action in the next 64.
pub fn irq_names(meta: &[u8]) -> (r: ([u8; 32], [u8; 64]))
    requires
        meta@.len() >= 96,
    ensures
        r.0@ == name_field(meta@, 32),
        r.1@ == name_field(meta@.skip(32), 64),
{
    assert(meta@.skip(0) =~= meta@);
    (copy_name(meta, 0), copy_name(meta, 32))
}

/// The 96 name bytes that seed an interrupt: at most 31 bytes of the chip
/// name, zero-padded to 32, then at most 63 bytes of the action name,
/// zero-padded to 64.
pub open spec fn seed_metadata(chip: Seq<u8>, action: Seq<u8>) -> Seq<u8> {
    zero_padded(chip.take(if chip.len() < 31 { chip.len() as int } else { 31 }), 32)
        + zero_padded(action.take(if action.len() < 63 { action.len() as int } else { 63 }), 64)
}

/// The name bytes that seed an interrupt's chip and action names.
pub fn irq_seed_metadata(chip: &str, action: &str) -> (r: [u8; 96])
    ensures
        r@ == seed_metadata(chip.spec_bytes(), action.spec_bytes()),
{
    let c = chip.as_bytes();
    let a = action.as_bytes();
    let chip_len = if c.len() < 31 {
        c.len()
    } else {
        31
    };
    let action_len = if a.len() < 63 {
        a.len()
    } else {
        63
    };
    let mut meta = [0u8; 96];
    let mut i: usize = 0;
    while i < chip_len
        invariant
            chip_len <= 31,
            chip_len <= c@.len(),
            i <= chip_len,
            meta@.len() == 96,
            forall|j: int| 0 <= j < i ==> meta@[j] == c@[j],
            forall|j: int| i <= j < 96 ==> meta@[j] == 0,
        decreases chip_len - i,
    {
        meta[i] = c[i];
        i = i + 1;
    }
    let mut k: usize = 0;
    while k < action_len
        invariant
            chip_len <= 31,
            chip_len <= c@.len(),
            action_len <= 63,
            action_len <= a@.len(),
            k <= action_len,
            meta@.len() == 96,
            forall|j: int| 0 <= j < chip_len ==> meta@[j] == c@[j],
            forall|j: int| chip_len <= j < 32 ==> meta@[j] == 0,
            forall|j: int| 0 <= j < k ==> meta@[32 + j] == a@[j],
            forall|j: int| 32 + k <= j < 96 ==> meta@[j] == 0,
        decreases action_len - k,
    {
        meta[32 + k] = a[k];
        k = k + 1;
    }
    assert(meta@ =~= seed_metadata(c@, a@));
    meta
}

proof fn lemma_name_field_of_padded(s: Seq<u8>, n: nat)
    requires
        s.len() < n,
        forall|j: int| 0 <= j < s.len() ==> s[j] != 0,
    ensures
        name_field(zero_padded(s, n), n) == zero_padded(s, n),
{
    let p = zero_padded(s, n);
    assert(p.take(n as int) =~= p);
    lemma_nul_pos(p);
    if nul_pos(p) < s.len() {
        assert(p[nul_pos(p) as int] == s[nul_pos(p) as int]);
    }
    if nul_pos(p) > s.len() {
        assert(p[s.len() as int] == 0);
    }
    assert(nul_pos(p) == s.len());
    assert(p.take(s.len() as int) =~= s);
    assert(name_field(p, n) =~= p);
}

/// Names seeded from `/proc/interrupts` read back unchanged: for chip and
/// action names without NUL bytes, the names kept in the seeded bytes are
/// the seeded names (cut to 31 and 63 bytes), zero-padded.
pub proof fn law_seeded_names_read_back(chip: Seq<u8>, action: Seq<u8>)
    requires
        forall|j: int| 0 <= j < chip.len() ==> chip[j] != 0,
        forall|j: int| 0 <= j < action.len() ==> action[j] != 0,
    ensures
        name_field(seed_metadata(chip, action), 32) == zero_padded(
            chip.take(if chip.len() < 31 { chip.len() as int } else { 31 }),
            32,
        ),
        name_field(seed_metadata(chip, action).skip(32), 64) == zero_padded(
            action.take(if action.len() < 63 { action.len() as int } else { 63 }),
            64,
        ),
{
    let c = chip.take(if chip.len() < 31 { chip.len() as int } else { 31 });
    let a = action.take(if action.len() < 63 { action.len() as int } else { 63 });
    let m = seed_metadata(chip, action);
    lemma_name_field_of_padded(c, 32);
    lemma_name_field_of_padded(a, 64);
    let zc = zero_padded(c, 32);
    assert(m.take(32) =~= zc);
    assert(zc.take(32) =~= zc);
    let k = nul_pos(m.take(32));
    assert(k == nul_pos(zc.take(32)));
    lemma_nul_pos(m.take(32));
    assert(m.take(k as int) =~= zc.take(k as int));
    assert(name_field(m, 32) =~= name_field(zc, 32));
    assert(m.skip(32) =~= zero_padded(a, 64));
}

/// A character that `str::trim` removes: Unicode `White_Space`.
pub open spec fn is_space(c: char) -> bool {
    let v = c as u32;
    (9 <= v <= 13) || v == 32 || v == 0x85 || v == 0xA0 || v == 0x1680 || (0x2000 <= v <= 0x200A)
        || v == 0x2028 || v == 0x2029 || v == 0x202F || v == 0x205F || v == 0x3000
}

fn space_char(c: char) -> (r: bool)
    ensures
        r == is_space(c),
{
    let v = c as u32;
    (9 <= v && v <= 13) || v == 32 || v == 0x85 || v == 0xA0 || v == 0x1680 || (0x2000 <= v && v
        <= 0x200A) || v == 0x2028 || v == 0x2029 || v == 0x202F || v == 0x205F || v == 0x3000
}

/// `s` without its leading white space.
pub open spec fn trim_front(s: Seq<char>) -> Seq<char>
    decreases s.len(),
{
    if s.len() > 0 && is_space(s[0]) {
        trim_front(s.drop_first())
    } else {
        s
    }
}

/// `s` without its trailing white space.
pub open spec fn trim_back(s: Seq<char>) -> Seq<char>
    decreases s.len(),
{
    if s.len() > 0 && is_space(s.last()) {
        trim_back(s.drop_last())
    } else {
        s
    }
}

/// The part of `s` after its last `-`, or all of it (`rsplit('-').next()`).
pub open spec fn last_segment(s: Seq<char>) -> Seq<char>
    decreases s.len(),
{
    if s.len() == 0 {
        s
    } else if s.last() == '-' {
        Seq::empty()
    } else {
        last_segment(s.drop_last()).push(s.last())
    }
}

/// The highest CPU number in the text of the possible-CPU list (such as
/// `0-7`): the number after the last `-` of the trimmed text.
pub open spec fn last_cpu_index(text: Seq<char>) -> Option<nat> {
    parse_unsigned(encode_utf8(last_segment(trim_back(trim_front(text)))), usize::MAX as nat)
}

/// The number of possible CPUs, from the text of the possible-CPU list when
/// it could be read: one more than its highest CPU number; 16 when the text
/// is missing or does not end in a number.
pub fn possible_cpus(text: Option<&str>) -> (r: usize)
    requires
        text matches Some(t) ==> last_cpu_index(t@) != Some(usize::MAX as nat),
    ensures
        r == (match text {
            Some(t) => match last_cpu_index(t@) {
                Some(n) => n + 1,
                None => 16,
            },
            None => 16,
        }),
{
    let t = match text {
        Some(t) => t,
        None => {
            return 16;
        },
    };
    let ghost s = t@;
    let n = t.unicode_len();
    let mut a: usize = 0;
    assert(s.skip(0) =~= s);
    while a < n && space_char(t.get_char(a))
        invariant
            n == s.len(),
            s == t@,
            a <= n,
            trim_front(s) == trim_front(s.skip(a as int)),
        decreases n - a,
    {
        assert(s.skip(a as int).drop_first() =~= s.skip(a + 1));
        a = a + 1;
    }
    assert(trim_front(s) == s.skip(a as int));
    let mut b: usize = n;
    assert(s.skip(a as int) =~= s.subrange(a as int, n as int));
    while b > a && space_char(t.get_char(b - 1))
        invariant
            n == s.len(),
            s == t@,
            a <= b <= n,
            trim_back(trim_front(s)) == trim_back(s.subrange(a as int, b as int)),
        decreases b - a,
    {
        assert(s.subrange(a as int, b as int).drop_last() =~= s.subrange(a as int, b - 1));
        b = b - 1;
    }
    let ghost trimmed = s.subrange(a as int, b as int);
    assert(trim_back(trimmed) == trimmed);
    let mut d: usize = b;
    assert(s.subrange(b as int, b as int) =~= Seq::<char>::empty());
    assert(trimmed =~= s.subrange(a as int, d as int));
    while d > a && t.get_char(d - 1) != '-'
        invariant
            n == s.len(),
            s == t@,
            a <= d <= b <= n,
            trimmed == s.subrange(a as int, b as int),
            last_segment(trimmed) == last_segment(s.subrange(a as int, d as int)) + s.subrange(
                d as int,
                b as int,
            ),
        decreases d - a,
    {
        let ghost head = s.subrange(a as int, d as int);
        assert(head.drop_last() =~= s.subrange(a as int, d - 1));
        assert(last_segment(head) == last_segment(head.drop_last()).push(head.last()));
        assert(s.subrange(d - 1, b as int) =~= seq![head.last()] + s.subrange(d as int, b as int));
        assert(last_segment(head.drop_last()).push(head.last()) + s.subrange(d as int, b as int)
            =~= last_segment(head.drop_last()) + s.subrange(d - 1, b as int));
        d = d - 1;
    }
    proof {
        let head = s.subrange(a as int, d as int);
        if d > a {
            assert(head.last() == '-');
        }
        assert(last_segment(head) =~= Seq::<char>::empty());
        assert(last_segment(trimmed) =~= s.subrange(d as int, b as int));
    }
    let seg = t.substring_char(d, b);
    match parse_usize(seg.as_bytes()) {
        Some(v) => v + 1,
        None => 16,
    }
}

/// The count that one CPU's value bytes hold: the first eight bytes, or 0
/// when there are fewer.
pub open spec fn cpu_count(v: Seq<u8>) -> u64 {
    if v.len() >= 8 {
        le_u64(v, 0) as u64
    } else {
        0
    }
}

/// The per-CPU counts held by the per-CPU value bytes of one interrupt.
pub fn percpu_counts_from(values: &Vec<Vec<u8>>) -> (r: Vec<u64>)
    ensures
        r@ == values.deep_view().map_values(|v: Seq<u8>| cpu_count(v)),
{
    let mut r: Vec<u64> = Vec::new();
    let mut i: usize = 0;
    while i < values.len()
        invariant
            i <= values@.len(),
            r@.len() == i,
            forall|j: int| 0 <= j < i ==> r@[j] == cpu_count(#[trigger] values@[j]@),
        decreases values@.len() - i,
    {
        let v = &values[i];
        let c = if v.len() >= 8 {
            read_u64(v.as_slice(), 0)
        } else {
            0
        };
        r.push(c);
        i = i + 1;
    }
    assert(r@ =~= values.deep_view().map_values(|v: Seq<u8>| cpu_count(v)));
    r
}

/// The per-CPU value bytes that seed an interrupt on `nr_cpus` CPUs: the
/// given count of each CPU, 0 for CPUs beyond the given counts.
pub fn seed_percpu_values(per_cpu: &[u64], nr_cpus: usize) -> (r: Vec<Vec<u8>>)
    ensures
        r@.len() == nr_cpus,
        forall|i: int|
            0 <= i < nr_cpus ==> (#[trigger] r@[i])@.len() == 8 && le_u64(r@[i]@, 0) == (if i
                < per_cpu@.len() {
                per_cpu@[i]
            } else {
                0
            }),
{
    let mut r: Vec<Vec<u8>> = Vec::new();
    let mut i: usize = 0;
    while i < nr_cpus
        invariant
            i <= nr_cpus,
            r@.len() == i,
            forall|j: int|
                0 <= j < i ==> (#[trigger] r@[j])@.len() == 8 && le_u64(r@[j]@, 0) == (if j
                    < per_cpu@.len() {
                    per_cpu@[j]
                } else {
                    0
                }),
        decreases nr_cpus - i,
    {
        let count = if i < per_cpu.len() {
            per_cpu[i]
        } else {
            0
        };
        let bytes = u64_le_bytes(count);
        let v = vstd::slice::slice_to_vec(bytes.as_slice());
        r.push(v);
        i = i + 1;
    }
    r
}

/// Counts seeded on each CPU read back as seeded.
pub proof fn law_seeded_counts_read_back(values: Seq<Seq<u8>>, per_cpu: Seq<u64>)
    requires
        forall|i: int|
            0 <= i < values.len() ==> (#[trigger] values[i]).len() == 8 && le_u64(values[i], 0)
                == (if i < per_cpu.len() {
                per_cpu[i]
            } else {
                0
            }),
    ensures
        values.map_values(|v: Seq<u8>| cpu_count(v)) == Seq::new(
            values.len(),
            |i: int| if i < per_cpu.len() { per_cpu[i] } else { 0u64 },
        ),
{
    assert(values.map_values(|v: Seq<u8>| cpu_count(v)) =~= Seq::new(
        values.len(),
        |i: int| if i < per_cpu.len() { per_cpu[i] } else { 0u64 },
    ));
}

/// The key bytes of an interrupt in the interrupt maps.
pub fn irq_key(irq: u32) -> (r: [u8; 4])
    ensures
        le_u32(r@, 0) == irq,
{
    crate::bytes::u32_le_bytes(irq)
}

/// The interrupt number that key bytes name, if they are long enough.
pub fn irq_from_key(key: &[u8]) -> (r: Option<u32>)
    ensures
        r == (if key@.len() >= 4 {
            Some(le_u32(key@, 0) as u32)
        } else {
            None
        }),
{
    if key.len() >= 4 {
        Some(read_u32(key, 0))
    } else {
        None
    }
}

/// The sum of `s`.
pub open spec fn sum(s: Seq<u64>) -> int
    decreases s.len(),
{
    if s.len() == 0 {
        0
    } else {
        sum(s.drop_last()) + s.last()
    }
}

proof fn lemma_sum_prefix_bound(s: Seq<u64>, i: int)
    requires
        0 <= i <= s.len(),
    ensures
        sum(s.take(i)) <= sum(s),
    decreases s.len() - i,
{
    if i < s.len() {
        lemma_sum_prefix_bound(s, i + 1);
        assert(s.take(i + 1).drop_last() =~= s.take(i));
    } else {
        assert(s.take(i) =~= s);
    }
}

/// The total of an interrupt's per-CPU counts.
pub fn total_count(counts: &Vec<u64>) -> (r: u64)
    requires
        sum(counts@) <= u64::MAX,
    ensures
        r == sum(counts@),
{
    let mut t: u64 = 0;
    let mut i: usize = 0;
    assert(counts@.take(0) =~= Seq::<u64>::empty());
    while i < counts.len()
        invariant
            i <= counts@.len(),
            sum(counts@) <= u64::MAX,
            t == sum(counts@.take(i as int)),
        decreases counts@.len() - i,
    {
        assert(counts@.take(i + 1).drop_last() =~= counts@.take(i as int));
        proof {
            lemma_sum_prefix_bound(counts@, i + 1);
        }
        t = t + counts[i];
        i = i + 1;
    }
    assert(counts@.take(i as int) =~= counts@);
    t
}

/// `e` is the snapshot entry of interrupt `irq` with per-CPU counts `counts`
/// (total 0 when they could not be read) and name bytes `meta` (names
/// empty unless at least 96 bytes were read).
pub open spec fn is_irq_entry(
    e: IrqStats,
    irq: u32,
    counts: Option<Seq<u64>>,
    meta: Option<Seq<u8>>,
) -> bool {
    &&& e.irq == irq
    &&& e._pad == 0
    &&& e.total_count == (match counts {
        Some(c) => sum(c),
        None => 0,
    })
    &&& e.chip_name@ == (match meta {
        Some(m) => if m.len() >= 96 {
            name_field(m, 32)
        } else {
            zero_padded(seq![], 32)
        },
        None => zero_padded(seq![], 32),
    })
    &&& e.action_name@ == (match meta {
        Some(m) => if m.len() >= 96 {
            name_field(m.skip(32), 64)
        } else {
            zero_padded(seq![], 64)
        },
        None => zero_padded(seq![], 64),
    })
}

/// The snapshot entry of one interrupt from its per-CPU counts and name bytes.
pub fn irq_entry(irq: u32, counts: &Option<Vec<u64>>, meta: &Option<Vec<u8>>) -> (r: IrqStats)
    requires
        counts matches Some(c) ==> sum(c@) <= u64::MAX,
    ensures
        is_irq_entry(
            r,
            irq,
            match counts {
                Some(c) => Some(c@),
                None => None,
            },
            match meta {
                Some(m) => Some(m@),
                None => None,
            },
        ),
{
    let total = match counts {
        Some(c) => total_count(c),
        None => 0,
    };
    let mut e = IrqStats::default();
    e.irq = irq;
    e.total_count = total;
    match meta {
        Some(m) => {
            if m.len() >= 96 {
                let (chip, action) = irq_names(m.as_slice());
                e.chip_name = chip;
                e.action_name = action;
            } else {
                assert(e.chip_name@ =~= zero_padded(seq![], 32));
                assert(e.action_name@ =~= zero_padded(seq![], 64));
            }
        },
        None => {
            assert(e.chip_name@ =~= zero_padded(seq![], 32));
            assert(e.action_name@ =~= zero_padded(seq![], 64));
        },
    }
    e
}

/// The total count of an interrupt line with the given per-CPU counts.
pub open spec fn entry_total(counts: &Option<Vec<u64>>) -> int {
    match counts {
        Some(c) => sum(c@),
        None => 0,
    }
}

/// What a walk over the counter map does with a key that is too short to
/// hold an IRQ number.
#[derive(Clone, Copy, Debug, PartialEq, Eq, Structural)]
pub enum ShortKey {
    /// Go on with the next key.
    Skip,
    /// End the walk.
    Stop,
}

/// What a walk over the counter map does with one key.
#[derive(Clone, Copy, Debug, PartialEq, Eq, Structural)]
pub enum KeyStep {
    /// The key names this interrupt line.
    Line(u32),
    /// Go on with the next key.
    Skip,
    /// End the walk.
    Stop,
}

/// What a walk over the counter map does with `key`: its first four bytes
/// name the interrupt line; a shorter key is skipped or ends the walk.
pub open spec fn key_action(key: Seq<u8>, short: ShortKey) -> KeyStep {
    if key.len() >= 4 {
        KeyStep::Line(le_u32(key, 0) as u32)
    } else if short == ShortKey::Stop {
        KeyStep::Stop
    } else {
        KeyStep::Skip
    }
}

/// What a walk over the counter map does with `key`.
pub fn key_step(key: &[u8], short: ShortKey) -> (r: KeyStep)
    ensures
        r == key_action(key@, short),
{
    if key.len() >= 4 {
        KeyStep::Line(read_u32(key, 0))
    } else {
        match short {
            ShortKey::Stop => KeyStep::Stop,
            ShortKey::Skip => KeyStep::Skip,
        }
    }
}

/// On keys that hold an IRQ number, skipping and stopping walks take the
/// same step, so they build the same snapshot from the same maps.
pub proof fn law_short_key_policy_irrelevant(key: Seq<u8>)
    requires
        key.len() >= 4,
    ensures
        key_action(key, ShortKey::Stop) == key_action(key, ShortKey::Skip),
{
}

/// An interrupt snapshot being filled one interrupt line at a time, in the
/// order in which the counter map yields its keys.
pub struct IrqSnapshot {
    data: IrqData,
    len: usize,
}

impl IrqSnapshot {
    /// The entries added so far.
    pub closed spec fn entries(&self) -> Seq<IrqStats> {
        self.data.irqs@.take(self.len as int)
    }

    /// The snapshot holds no entry beyond the ones added, and its header is zero.
    pub closed spec fn wf(&self) -> bool {
        &&& self.len <= MAX_IRQS
        &&& self.data.seq == 0
        &&& self.data.timestamp_ns == 0
        &&& self.data.nr_irqs == 0
        &&& self.data._pad == 0
        &&& forall|i: int| self.len <= i < MAX_IRQS ==> (#[trigger] self.data.irqs@[i]).is_zero()
    }

    /// An empty snapshot.
    pub fn new() -> (r: Self)
        ensures
            r.wf(),
            r.entries() == Seq::<IrqStats>::empty(),
    {
        let r = IrqSnapshot { data: IrqData::default(), len: 0 };
        assert(r.entries() =~= Seq::<IrqStats>::empty());
        r
    }

    /// No more entries fit (the snapshot holds `MAX_IRQS` of them).
    pub fn is_full(&self) -> (r: bool)
        requires
            self.wf(),
        ensures
            r == (self.entries().len() >= MAX_IRQS),
    {
        self.len >= MAX_IRQS
    }

    /// Adds the entry of interrupt `irq` with its per-CPU counts and name
    /// bytes, when its total count is not zero; a line that never fired is
    /// left out.
    pub fn add(&mut self, irq: u32, counts: &Option<Vec<u64>>, meta: &Option<Vec<u8>>)
        requires
            old(self).wf(),
            old(self).entries().len() < MAX_IRQS,
            counts matches Some(c) ==> sum(c@) <= u64::MAX,
        ensures
            final(self).wf(),
            entry_total(counts) == 0 ==> final(self).entries() == old(self).entries(),
            entry_total(counts) != 0 ==> {
                &&& final(self).entries().len() == old(self).entries().len() + 1
                &&& final(self).entries().drop_last() == old(self).entries()
                &&& is_irq_entry(
                    final(self).entries().last(),
                    irq,
                    match counts {
                        Some(c) => Some(c@),
                        None => None,
                    },
                    match meta {
                        Some(m) => Some(m@),
                        None => None,
                    },
                )
            },
    {
        let e = irq_entry(irq, counts, meta);
        if e.total_count == 0 {
            return;
        }
        let ghost before = self.entries();
        self.data.irqs[self.len] = e;
        self.len = self.len + 1;
        assert(self.entries().drop_last() =~= before);
    }

    /// The snapshot: its entries first, `nr_irqs` their number, all else zero.
    pub fn finish(self) -> (r: IrqData)
        requires
            self.wf(),
        ensures
            r.nr_irqs == self.entries().len(),
            r.irqs@.take(r.nr_irqs as int) == self.entries(),
            forall|i: int| r.nr_irqs <= i < MAX_IRQS ==> (#[trigger] r.irqs@[i]).is_zero(),
            r.seq == 0,
            r.timestamp_ns == 0,
    {
        let mut data = self.data;
        data.nr_irqs = self.len as u32;
        data
    }
}

/// The per-CPU counts of one line as values.
pub open spec fn counts_view(c: Option<Vec<u64>>) -> Option<Seq<u64>> {
    match c {
        Some(v) => Some(v@),
        None => None,
    }
}

/// The name bytes of one line as values.
pub open spec fn meta_view(m: Option<Vec<u8>>) -> Option<Seq<u8>> {
    match m {
        Some(v) => Some(v@),
        None => None,
    }
}

/// A walk over the first `n` keys of the counter map, `counts[i]` being the
/// per-CPU counts read for key `i`: the indices of the keys whose lines it
/// keeps, in order, and whether it has ended. It ends when the snapshot is
/// full or at a key that ends it; a skipped key and a line that never fired
/// add nothing.
pub open spec fn walk_lines(
    keys: Seq<Vec<u8>>,
    counts: Seq<Option<Vec<u64>>>,
    short: ShortKey,
    n: nat,
) -> (Seq<int>, bool)
    decreases n,
{
    if n == 0 {
        (Seq::<int>::empty(), false)
    } else {
        let prev = walk_lines(keys, counts, short, (n - 1) as nat);
        let i = n - 1;
        if prev.1 || prev.0.len() >= MAX_IRQS {
            (prev.0, true)
        } else {
            match key_action(keys[i]@, short) {
                KeyStep::Stop => (prev.0, true),
                KeyStep::Skip => (prev.0, false),
                KeyStep::Line(_) => if entry_total(&counts[i]) == 0 {
                    (prev.0, false)
                } else {
                    (prev.0.push(i), false)
                },
            }
        }
    }
}

/// The indices of the keys whose lines a whole walk keeps.
pub open spec fn kept_lines(
    keys: Seq<Vec<u8>>,
    counts: Seq<Option<Vec<u64>>>,
    short: ShortKey,
) -> Seq<int> {
    walk_lines(keys, counts, short, keys.len()).0
}

/// The live interrupt snapshot from a walk over the counter map: `keys` in
/// the order the map yields them, with the per-CPU counts and the name bytes
/// read for each (`None` where a lookup found nothing, or there is no name
/// map). Entry `j` is the line of the `j`-th kept key; all else is zero.
pub fn irq_walk(
    keys: &[Vec<u8>],
    counts: &[Option<Vec<u64>>],
    metas: &[Option<Vec<u8>>],
    short: ShortKey,
) -> (r: IrqData)
    requires
        counts@.len() == keys@.len(),
        metas@.len() == keys@.len(),
        forall|i: int|
            0 <= i < counts@.len() ==> (#[trigger] counts@[i] matches Some(c) ==> sum(c@)
                <= u64::MAX),
    ensures
        r.nr_irqs == kept_lines(keys@, counts@, short).len(),
        forall|j: int|
            0 <= j < r.nr_irqs ==> {
                let k = #[trigger] kept_lines(keys@, counts@, short)[j];
                is_irq_entry(
                    r.irqs@[j],
                    le_u32(keys@[k]@, 0) as u32,
                    counts_view(counts@[k]),
                    meta_view(metas@[k]),
                )
            },
        forall|i: int| r.nr_irqs <= i < MAX_IRQS ==> (#[trigger] r.irqs@[i]).is_zero(),
        r.seq == 0,
        r.timestamp_ns == 0,
{
    let mut snap = IrqSnapshot::new();
    let mut stopped = false;
    let mut i: usize = 0;
    while i < keys.len()
        invariant
            i <= keys@.len(),
            counts@.len() == keys@.len(),
            metas@.len() == keys@.len(),
            forall|x: int|
                0 <= x < counts@.len() ==> (#[trigger] counts@[x] matches Some(c) ==> sum(c@)
                    <= u64::MAX),
            snap.wf(),
            walk_lines(keys@, counts@, short, i as nat).1 == stopped,
            walk_lines(keys@, counts@, short, i as nat).0.len() == snap.entries().len(),
            forall|j: int|
                0 <= j < snap.entries().len() ==> {
                    let k = #[trigger] walk_lines(keys@, counts@, short, i as nat).0[j];
                    is_irq_entry(
                        snap.entries()[j],
                        le_u32(keys@[k]@, 0) as u32,
                        counts_view(counts@[k]),
                        meta_view(metas@[k]),
                    )
                },
        decreases keys@.len() - i,
    {
        let ghost prev = walk_lines(keys@, counts@, short, i as nat);
        let ghost before = snap.entries();
        if !stopped {
            if snap.is_full() {
                stopped = true;
            } else {
                match key_step(keys[i].as_slice(), short) {
                    KeyStep::Stop => {
                        stopped = true;
                    },
                    KeyStep::Skip => {},
                    KeyStep::Line(irq) => {
                        snap.add(irq, &counts[i], &metas[i]);
                        proof {
                            let now = walk_lines(keys@, counts@, short, (i + 1) as nat).0;
                            if entry_total(&counts@[i as int]) != 0 {
                                assert forall|j: int| 0 <= j < snap.entries().len() implies {
                                    let k = #[trigger] now[j];
                                    is_irq_entry(
                                        snap.entries()[j],
                                        le_u32(keys@[k]@, 0) as u32,
                                        counts_view(counts@[k]),
                                        meta_view(metas@[k]),
                                    )
                                } by {
                                    if j < before.len() {
                                        assert(now[j] == prev.0[j]);
                                        assert(snap.entries()[j] == before[j]);
                                    }
                                }
                            }
                        }
                    },
                }
            }
        }
        i = i + 1;
    }
    snap.finish()
}

/// The reader (whose walk ends at a key too short to hold an IRQ number) and
/// the collector (whose walk skips such a key) keep the same lines in the
/// same order when every key holds an IRQ number, so from the same maps they
/// build the same snapshot.
pub proof fn law_reader_and_collector_agree(
    keys: Seq<Vec<u8>>,
    counts: Seq<Option<Vec<u64>>>,
    n: nat,
)
    requires
        n <= keys.len(),
        forall|i: int| 0 <= i < keys.len() ==> (#[trigger] keys[i])@.len() >= 4,
    ensures
        walk_lines(keys, counts, ShortKey::Stop, n) == walk_lines(keys, counts, ShortKey::Skip, n),
    decreases n,
{
    if n > 0 {
        law_reader_and_collector_agree(keys, counts, (n - 1) as nat);
        assert(keys[n - 1]@.len() >= 4);
    }
}

} // verus!
