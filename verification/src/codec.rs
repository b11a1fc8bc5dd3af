//! The save-document codec: the canonical byte representation of a
//! [`SaveData`] and its parser.
//!
//! The document is a single JSON object with the fields in a fixed order and
//! each number in canonical decimal, so every save state has exactly one
//! representation. The host shell writes the encoded bytes to the save file
//! and hands the bytes it read back to the parser; a document that is not
//! the canonical encoding of any state parses to nothing, which the state
//! manager treats as a first run.

use vstd::arithmetic::div_mod::lemma_fundamental_div_mod;
use vstd::arithmetic::div_mod::lemma_fundamental_div_mod_converse;
use vstd::prelude::*;

use crate::save::SaveData;
use crate::save::SaveDataStats;

verus! {

/// Whether a byte is an ASCII decimal digit.
pub open spec fn is_digit(b: u8) -> bool {
    48 <= b && b <= 57
}

/// The digit byte for a value below ten.
pub open spec fn digit_byte(n: nat) -> u8
    recommends
        n < 10,
{
    (48 + n) as u8
}

/// The value of a digit byte.
pub open spec fn digit_val(b: u8) -> nat
    recommends
        is_digit(b),
{
    (b - 48) as nat
}

/// The canonical decimal representation of a number: no sign, no leading
/// zeros, a single `0` for zero.
pub open spec fn dec_rep(n: nat) -> Seq<u8>
    decreases n,
{
    if n < 10 {
        seq![digit_byte(n)]
    } else {
        dec_rep(n / 10).push(digit_byte(n % 10))
    }
}

/// The number a sequence of digit bytes denotes.
pub open spec fn val(ds: Seq<u8>) -> nat
    decreases ds.len(),
{
    if ds.len() == 0 {
        0
    } else {
        val(ds.drop_last()) * 10 + digit_val(ds.last())
    }
}

/// The canonical representation is made of digits, denotes the number it
/// represents, and never starts with a zero unless it is the single `0`.
pub proof fn lemma_dec_rep(n: nat)
    ensures
        dec_rep(n).len() >= 1,
        forall|k: int| 0 <= k < dec_rep(n).len() ==> is_digit(#[trigger] dec_rep(n)[k]),
        val(dec_rep(n)) == n,
        n > 0 ==> dec_rep(n)[0] != 48,
        n < 10 ==> dec_rep(n).len() == 1,
    decreases n,
{
    if n < 10 {
        let ds = seq![digit_byte(n)];
        assert(ds.drop_last() =~= Seq::<u8>::empty());
        assert(val(ds.drop_last()) == 0);
        assert(val(ds) == digit_val(digit_byte(n)));
        assert(digit_val(digit_byte(n)) == n);
    } else {
        let q = n / 10;
        let r = n % 10;
        lemma_dec_rep(q);
        lemma_fundamental_div_mod(n as int, 10);
        assert(n == q * 10 + r);
        assert(dec_rep(n) == dec_rep(q).push(digit_byte(r)));
        assert(dec_rep(n).drop_last() =~= dec_rep(q));
        assert(dec_rep(n).last() == digit_byte(r));
        assert(digit_val(digit_byte(r)) == r);
        assert(val(dec_rep(n)) == val(dec_rep(q)) * 10 + r);
        assert(dec_rep(n)[0] == dec_rep(q)[0]);
    }
}

/// A sequence of digit bytes without a superfluous leading zero is the
/// canonical representation of the number it denotes.
pub proof fn lemma_canonical_digits_unique(ds: Seq<u8>)
    requires
        ds.len() >= 1,
        forall|k: int| 0 <= k < ds.len() ==> is_digit(#[trigger] ds[k]),
        ds[0] == 48 ==> ds.len() == 1,
    ensures
        ds == dec_rep(val(ds)),
    decreases ds.len(),
{
    if ds.len() == 1 {
        assert(ds.drop_last() =~= Seq::<u8>::empty());
        assert(val(ds.drop_last()) == 0);
        assert(val(ds) == digit_val(ds[0]));
        assert(ds =~= seq![digit_byte(val(ds))]);
    } else {
        let dl = ds.drop_last();
        lemma_canonical_digits_unique(dl);
        let d = digit_val(ds.last());
        let n = val(ds);
        assert(n == val(dl) * 10 + d);
        if val(dl) == 0 {
            lemma_dec_rep(0);
            assert(dl[0] == 48);
        }
        assert(val(dl) >= 1);
        assert(n >= 10);
        lemma_fundamental_div_mod_converse(n as int, 10, val(dl) as int, d as int);
        assert(n / 10 == val(dl) && n % 10 == d);
        assert(dec_rep(n) == dec_rep(val(dl)).push(digit_byte(d)));
        assert(ds =~= dl.push(ds.last()));
        assert(digit_byte(d) == ds.last());
    }
}

/// Append the canonical decimal representation of `n`.
pub fn push_dec(out: &mut Vec<u8>, n: u32)
    ensures
        final(out)@ == old(out)@ + dec_rep(n as nat),
    decreases n,
{
    if n < 10 {
        out.push(48 + n as u8);
        assert(out@ =~= old(out)@ + dec_rep(n as nat));
    } else {
        push_dec(out, n / 10);
        out.push(48 + (n % 10) as u8);
        assert(out@ =~= old(out)@ + dec_rep(n as nat));
    }
}

/// The literal bytes `{"version":` that open the document.
pub open spec fn pre_version() -> Seq<u8> {
    seq![123u8, 34u8, 118u8, 101u8, 114u8, 115u8, 105u8, 111u8, 110u8, 34u8, 58u8]
}

/// The bytes of [`pre_version`], as a vector.
fn chunk_pre_version() -> (v: Vec<u8>)
    ensures
        v@ == pre_version(),
{
    let mut v: Vec<u8> = Vec::new();
    v.push(123u8);
    v.push(34u8);
    v.push(118u8);
    v.push(101u8);
    v.push(114u8);
    v.push(115u8);
    v.push(105u8);
    v.push(111u8);
    v.push(110u8);
    v.push(34u8);
    v.push(58u8);
    proof {
        assert(v@ =~= pre_version());
    }
    v
}

/// The literal bytes `,"snacks":` that introduce the snacks field.
pub open spec fn pre_snacks() -> Seq<u8> {
    seq![44u8, 34u8, 115u8, 110u8, 97u8, 99u8, 107u8, 115u8, 34u8, 58u8]
}

/// The bytes of [`pre_snacks`], as a vector.
fn chunk_pre_snacks() -> (v: Vec<u8>)
    ensures
        v@ == pre_snacks(),
{
    let mut v: Vec<u8> = Vec::new();
    v.push(44u8);
    v.push(34u8);
    v.push(115u8);
    v.push(110u8);
    v.push(97u8);
    v.push(99u8);
    v.push(107u8);
    v.push(115u8);
    v.push(34u8);
    v.push(58u8);
    proof {
        assert(v@ =~= pre_snacks());
    }
    v
}

/// The literal bytes `,"stats":{"totalClicks":` that open the statistics object and introduce the click counter.
pub open spec fn pre_total_clicks() -> Seq<u8> {
    seq![44u8, 34u8, 115u8, 116u8, 97u8, 116u8, 115u8, 34u8, 58u8, 123u8, 34u8, 116u8, 111u8, 116u8, 97u8, 108u8, 67u8, 108u8, 105u8, 99u8, 107u8, 115u8, 34u8, 58u8]
}

/// The bytes of [`pre_total_clicks`], as a vector.
fn chunk_pre_total_clicks() -> (v: Vec<u8>)
    ensures
        v@ == pre_total_clicks(),
{
    let mut v: Vec<u8> = Vec::new();
    v.push(44u8);
    v.push(34u8);
    v.push(115u8);
    v.push(116u8);
    v.push(97u8);
    v.push(116u8);
    v.push(115u8);
    v.push(34u8);
    v.push(58u8);
    v.push(123u8);
    v.push(34u8);
    v.push(116u8);
    v.push(111u8);
    v.push(116u8);
    v.push(97u8);
    v.push(108u8);
    v.push(67u8);
    v.push(108u8);
    v.push(105u8);
    v.push(99u8);
    v.push(107u8);
    v.push(115u8);
    v.push(34u8);
    v.push(58u8);
    proof {
        assert(v@ =~= pre_total_clicks());
    }
    v
}

/// The literal bytes `,"totalFeedings":` that introduce the feeding counter.
pub open spec fn pre_total_feedings() -> Seq<u8> {
    seq![44u8, 34u8, 116u8, 111u8, 116u8, 97u8, 108u8, 70u8, 101u8, 101u8, 100u8, 105u8, 110u8, 103u8, 115u8, 34u8, 58u8]
}

/// The bytes of [`pre_total_feedings`], as a vector.
fn chunk_pre_total_feedings() -> (v: Vec<u8>)
    ensures
        v@ == pre_total_feedings(),
{
    let mut v: Vec<u8> = Vec::new();
    v.push(44u8);
    v.push(34u8);
    v.push(116u8);
    v.push(111u8);
    v.push(116u8);
    v.push(97u8);
    v.push(108u8);
    v.push(70u8);
    v.push(101u8);
    v.push(101u8);
    v.push(100u8);
    v.push(105u8);
    v.push(110u8);
    v.push(103u8);
    v.push(115u8);
    v.push(34u8);
    v.push(58u8);
    proof {
        assert(v@ =~= pre_total_feedings());
    }
    v
}

/// The literal bytes `,"peakSnacks":` that introduce the peak balance.
pub open spec fn pre_peak_snacks() -> Seq<u8> {
    seq![44u8, 34u8, 112u8, 101u8, 97u8, 107u8, 83u8, 110u8, 97u8, 99u8, 107u8, 115u8, 34u8, 58u8]
}

/// The bytes of [`pre_peak_snacks`], as a vector.
fn chunk_pre_peak_snacks() -> (v: Vec<u8>)
    ensures
        v@ == pre_peak_snacks(),
{
    let mut v: Vec<u8> = Vec::new();
    v.push(44u8);
    v.push(34u8);
    v.push(112u8);
    v.push(101u8);
    v.push(97u8);
    v.push(107u8);
    v.push(83u8);
    v.push(110u8);
    v.push(97u8);
    v.push(99u8);
    v.push(107u8);
    v.push(115u8);
    v.push(34u8);
    v.push(58u8);
    proof {
        assert(v@ =~= pre_peak_snacks());
    }
    v
}

/// The literal bytes `,"sessionPlaytime":` that introduce the playtime counter.
pub open spec fn pre_session_playtime() -> Seq<u8> {
    seq![44u8, 34u8, 115u8, 101u8, 115u8, 115u8, 105u8, 111u8, 110u8, 80u8, 108u8, 97u8, 121u8, 116u8, 105u8, 109u8, 101u8, 34u8, 58u8]
}

/// The bytes of [`pre_session_playtime`], as a vector.
fn chunk_pre_session_playtime() -> (v: Vec<u8>)
    ensures
        v@ == pre_session_playtime(),
{
    let mut v: Vec<u8> = Vec::new();
    v.push(44u8);
    v.push(34u8);
    v.push(115u8);
    v.push(101u8);
    v.push(115u8);
    v.push(115u8);
    v.push(105u8);
    v.push(111u8);
    v.push(110u8);
    v.push(80u8);
    v.push(108u8);
    v.push(97u8);
    v.push(121u8);
    v.push(116u8);
    v.push(105u8);
    v.push(109u8);
    v.push(101u8);
    v.push(34u8);
    v.push(58u8);
    proof {
        assert(v@ =~= pre_session_playtime());
    }
    v
}

/// The literal bytes `}}` that close the statistics object and the document.
pub open spec fn suffix() -> Seq<u8> {
    seq![125u8, 125u8]
}

/// The bytes of [`suffix`], as a vector.
fn chunk_suffix() -> (v: Vec<u8>)
    ensures
        v@ == suffix(),
{
    let mut v: Vec<u8> = Vec::new();
    v.push(125u8);
    v.push(125u8);
    proof {
        assert(v@ =~= suffix());
    }
    v
}

/// Append all of `src` to `out`.
fn push_all(out: &mut Vec<u8>, src: &Vec<u8>)
    ensures
        final(out)@ == old(out)@ + src@,
{
    proof {
        assert(old(out)@ + src@.take(0) =~= old(out)@);
    }
    let mut k: usize = 0;
    while k < src.len()
        invariant
            k <= src@.len(),
            out@ == old(out)@ + src@.take(k as int),
        decreases src@.len() - k,
    {
        out.push(src[k]);
        proof {
            assert(old(out)@ + src@.take(k as int + 1) =~= (old(out)@ + src@.take(
                k as int,
            )).push(src@[k as int]));
        }
        k = k + 1;
    }
    proof {
        assert(src@.take(src@.len() as int) =~= src@);
    }
}

/// The canonical save document for a state: one JSON object with the fields
/// in a fixed order and each number in canonical decimal.
pub open spec fn encoded(d: SaveData) -> Seq<u8> {
    pre_version() + dec_rep(d.version as nat) + pre_snacks() + dec_rep(d.snacks as nat)
        + pre_total_clicks() + dec_rep(d.stats.total_clicks as nat) + pre_total_feedings()
        + dec_rep(d.stats.total_feedings as nat) + pre_peak_snacks() + dec_rep(
        d.stats.peak_snacks as nat,
    ) + pre_session_playtime() + dec_rep(d.stats.session_playtime as nat) + suffix()
}

/// Serialize a save state to its canonical document, the exact bytes the
/// persistence layer writes to the save file.
pub fn encode_save(d: &SaveData) -> (out: Vec<u8>)
    ensures
        out@ == encoded(*d),
{
    let mut out: Vec<u8> = Vec::new();
    let pat = chunk_pre_version();
    push_all(&mut out, &pat);
    push_dec(&mut out, d.version as u32);
    let pat = chunk_pre_snacks();
    push_all(&mut out, &pat);
    push_dec(&mut out, d.snacks);
    let pat = chunk_pre_total_clicks();
    push_all(&mut out, &pat);
    push_dec(&mut out, d.stats.total_clicks);
    let pat = chunk_pre_total_feedings();
    push_all(&mut out, &pat);
    push_dec(&mut out, d.stats.total_feedings);
    let pat = chunk_pre_peak_snacks();
    push_all(&mut out, &pat);
    push_dec(&mut out, d.stats.peak_snacks);
    let pat = chunk_pre_session_playtime();
    push_all(&mut out, &pat);
    push_dec(&mut out, d.stats.session_playtime);
    let pat = chunk_suffix();
    push_all(&mut out, &pat);
    proof {
        assert(out@ =~= encoded(*d));
    }
    out
}

/// The end of the run of digit bytes that starts at `i`: the first position
/// at or after `i` holding a non-digit, or the end of the sequence.
pub open spec fn digit_run_end(s: Seq<u8>, i: int) -> int
    recommends
        0 <= i <= s.len(),
    decreases s.len() - i,
{
    if i < 0 || i >= s.len() {
        i
    } else if !is_digit(s[i]) {
        i
    } else {
        digit_run_end(s, i + 1)
    }
}

/// Everything before the end of a digit run is a digit, and the run ends at
/// the sequence's end or just before a non-digit.
pub proof fn lemma_digit_run_end(s: Seq<u8>, i: int)
    requires
        0 <= i <= s.len(),
    ensures
        i <= digit_run_end(s, i) <= s.len(),
        forall|k: int| i <= k < digit_run_end(s, i) ==> is_digit(#[trigger] s[k]),
        digit_run_end(s, i) == s.len() || !is_digit(s[digit_run_end(s, i)]),
    decreases s.len() - i,
{
    if i < s.len() && is_digit(s[i]) {
        lemma_digit_run_end(s, i + 1);
    }
}

/// A digit run is determined by its bytes: if digits fill `i..j` and `j`
/// sits at the end or before a non-digit, the run that starts at `i` ends
/// exactly at `j`.
pub proof fn lemma_digit_run_end_unique(s: Seq<u8>, i: int, j: int)
    requires
        0 <= i <= j <= s.len(),
        forall|k: int| i <= k < j ==> is_digit(#[trigger] s[k]),
        j == s.len() || !is_digit(s[j]),
    ensures
        digit_run_end(s, i) == j,
    decreases j - i,
{
    if i < j {
        lemma_digit_run_end_unique(s, i + 1, j);
    }
}

/// What reading a canonical decimal number at position `i` yields: nothing
/// when no digit starts there, when a leading zero hides further digits, or
/// when the value does not fit the save state's unsigned fields; otherwise
/// the value together with the position just past the run.
pub open spec fn parse_dec_spec(s: Seq<u8>, i: int) -> Option<(nat, int)> {
    let e = digit_run_end(s, i);
    if e == i {
        None
    } else if s[i] == 48 && e > i + 1 {
        None
    } else if val(s.subrange(i, e)) > u32::MAX {
        None
    } else {
        Some((val(s.subrange(i, e)), e))
    }
}

/// Read a canonical decimal number at position `i`.
fn parse_dec(bytes: &Vec<u8>, i: usize) -> (r: Option<(u32, usize)>)
    requires
        i <= bytes@.len(),
    ensures
        r matches Some(p) ==> parse_dec_spec(bytes@, i as int) == Some((p.0 as nat, p.1 as int)),
        r is None ==> parse_dec_spec(bytes@, i as int) is None,
{
    proof {
        lemma_digit_run_end(bytes@, i as int);
    }
    let ghost e = digit_run_end(bytes@, i as int);
    proof {
        assert(bytes@.subrange(i as int, i as int) =~= Seq::<u8>::empty());
    }
    let mut j: usize = i;
    let mut acc: u64 = 0;
    let mut over = false;
    while j < bytes.len() && bytes[j] >= 48 && bytes[j] <= 57
        invariant
            i <= j <= e,
            i as int <= e <= bytes@.len(),
            e == digit_run_end(bytes@, i as int),
            forall|k: int| i <= k < e ==> is_digit(#[trigger] bytes@[k]),
            e == bytes@.len() || !is_digit(bytes@[e]),
            !over ==> acc as nat == val(bytes@.subrange(i as int, j as int)) && acc <= u32::MAX
                as u64,
            over ==> val(bytes@.subrange(i as int, j as int)) > u32::MAX,
        decreases e - j,
    {
        let d = bytes[j] - 48;
        proof {
            assert(bytes@.subrange(i as int, j as int + 1).drop_last() =~= bytes@.subrange(
                i as int,
                j as int,
            ));
            assert(bytes@.subrange(i as int, j as int + 1).last() == bytes@[j as int]);
        }
        if !over {
            acc = acc * 10 + d as u64;
            if acc > u32::MAX as u64 {
                over = true;
            }
        } else {
            proof {
                let prev = val(bytes@.subrange(i as int, j as int));
                assert(val(bytes@.subrange(i as int, j as int + 1)) == prev * 10 + digit_val(
                    bytes@[j as int],
                ));
                assert(prev * 10 >= prev);
            }
        }
        j = j + 1;
    }
    if j == i {
        return None;
    }
    if bytes[i] == 48 && j > i + 1 {
        return None;
    }
    if over {
        return None;
    }
    Some((acc as u32, j))
}

/// Whether the literal `pat` sits in `s` at position `i`; when it does, the
/// position just past it.
pub open spec fn chunk_at(s: Seq<u8>, i: int, pat: Seq<u8>) -> Option<int> {
    if 0 <= i && i + pat.len() <= s.len() && s.subrange(i, i + pat.len()) == pat {
        Some(i + pat.len())
    } else {
        None
    }
}

/// Check that the literal `pat` sits in `bytes` at position `i`.
fn expect(bytes: &Vec<u8>, i: usize, pat: &Vec<u8>) -> (r: Option<usize>)
    ensures
        r matches Some(j) ==> chunk_at(bytes@, i as int, pat@) == Some(j as int),
        r is None ==> chunk_at(bytes@, i as int, pat@) is None,
{
    if i > bytes.len() || pat.len() > bytes.len() - i {
        return None;
    }
    let mut k: usize = 0;
    while k < pat.len()
        invariant
            k <= pat@.len(),
            i + pat@.len() <= bytes@.len() <= usize::MAX,
            forall|t: int| 0 <= t < k ==> bytes@[i + t] == #[trigger] pat@[t],
        decreases pat@.len() - k,
    {
        if bytes[i + k] != pat[k] {
            proof {
                assert(bytes@.subrange(i as int, i as int + pat@.len())[k as int] != pat@[k as int]);
            }
            return None;
        }
        k = k + 1;
    }
    proof {
        assert(bytes@.subrange(i as int, i as int + pat@.len()) =~= pat@);
    }
    Some(i + pat.len())
}

/// Reading one field: the key literal, then a canonical decimal number.
pub open spec fn field_at(s: Seq<u8>, i: int, pat: Seq<u8>) -> Option<(nat, int)> {
    match chunk_at(s, i, pat) {
        None => None,
        Some(j) => parse_dec_spec(s, j),
    }
}

/// The save state with the given field values, each truncated to its field
/// width (the parser only builds one from values it has checked to fit).
pub open spec fn mk_save(
    version: nat,
    snacks: nat,
    clicks: nat,
    feedings: nat,
    peak: nat,
    playtime: nat,
) -> SaveData {
    SaveData {
        version: version as u8,
        snacks: snacks as u32,
        stats: SaveDataStats {
            total_clicks: clicks as u32,
            total_feedings: feedings as u32,
            peak_snacks: peak as u32,
            session_playtime: playtime as u32,
        },
    }
}

/// What parsing a whole document yields: the fields in their fixed order,
/// each a canonical decimal that fits its width, with nothing before or
/// after the document; anything else yields nothing.
pub open spec fn spec_parse_save(s: Seq<u8>) -> Option<SaveData> {
    match field_at(s, 0, pre_version()) {
        None => None,
        Some((version, i1)) => if version > 255 {
            None
        } else {
            match field_at(s, i1, pre_snacks()) {
                None => None,
                Some((snacks, i2)) => match field_at(s, i2, pre_total_clicks()) {
                    None => None,
                    Some((clicks, i3)) => match field_at(s, i3, pre_total_feedings()) {
                        None => None,
                        Some((feedings, i4)) => match field_at(s, i4, pre_peak_snacks()) {
                            None => None,
                            Some((peak, i5)) => match field_at(s, i5, pre_session_playtime()) {
                                None => None,
                                Some((playtime, i6)) => match chunk_at(s, i6, suffix()) {
                                    None => None,
                                    Some(end) => if end == s.len() {
                                        Some(mk_save(version, snacks, clicks, feedings, peak, playtime))
                                    } else {
                                        None
                                    },
                                },
                            },
                        },
                    },
                },
            }
        },
    }
}

/// Parse a save document. Yields the one save state whose canonical
/// document the bytes are, and nothing on any other input.
pub fn parse_save(bytes: &Vec<u8>) -> (r: Option<SaveData>)
    ensures
        r == spec_parse_save(bytes@),
{
    let pat = chunk_pre_version();
    let i = match expect(bytes, 0, &pat) {
        Option::Some(i) => i,
        Option::None => {
            return None;
        },
    };
    let (version, i) = match parse_dec(bytes, i) {
        Option::Some(p) => p,
        Option::None => {
            return None;
        },
    };
    if version > 255 {
        return None;
    }
    let pat = chunk_pre_snacks();
    let i = match expect(bytes, i, &pat) {
        Option::Some(i) => i,
        Option::None => {
            return None;
        },
    };
    let (snacks, i) = match parse_dec(bytes, i) {
        Option::Some(p) => p,
        Option::None => {
            return None;
        },
    };
    let pat = chunk_pre_total_clicks();
    let i = match expect(bytes, i, &pat) {
        Option::Some(i) => i,
        Option::None => {
            return None;
        },
    };
    let (clicks, i) = match parse_dec(bytes, i) {
        Option::Some(p) => p,
        Option::None => {
            return None;
        },
    };
    let pat = chunk_pre_total_feedings();
    let i = match expect(bytes, i, &pat) {
        Option::Some(i) => i,
        Option::None => {
            return None;
        },
    };
    let (feedings, i) = match parse_dec(bytes, i) {
        Option::Some(p) => p,
        Option::None => {
            return None;
        },
    };
    let pat = chunk_pre_peak_snacks();
    let i = match expect(bytes, i, &pat) {
        Option::Some(i) => i,
        Option::None => {
            return None;
        },
    };
    let (peak, i) = match parse_dec(bytes, i) {
        Option::Some(p) => p,
        Option::None => {
            return None;
        },
    };
    let pat = chunk_pre_session_playtime();
    let i = match expect(bytes, i, &pat) {
        Option::Some(i) => i,
        Option::None => {
            return None;
        },
    };
    let (playtime, i) = match parse_dec(bytes, i) {
        Option::Some(p) => p,
        Option::None => {
            return None;
        },
    };
    let pat = chunk_suffix();
    let i = match expect(bytes, i, &pat) {
        Option::Some(i) => i,
        Option::None => {
            return None;
        },
    };
    if i != bytes.len() {
        return None;
    }
    Some(
        SaveData {
            version: version as u8,
            snacks,
            stats: SaveDataStats {
                total_clicks: clicks,
                total_feedings: feedings,
                peak_snacks: peak,
                session_playtime: playtime,
            },
        },
    )
}

/// Reading a field where a key literal and a canonical number sit yields
/// exactly that number and stops just past it.
proof fn lemma_field_at_complete(s: Seq<u8>, pos: int, pat: Seq<u8>, n: nat)
    requires
        0 <= pos,
        pos + pat.len() + dec_rep(n).len() <= s.len(),
        s.subrange(pos, pos + pat.len() + dec_rep(n).len()) == pat + dec_rep(n),
        n <= u32::MAX,
        pos + pat.len() + dec_rep(n).len() == s.len() || !is_digit(
            s[pos + pat.len() + dec_rep(n).len()],
        ),
    ensures
        field_at(s, pos, pat) == Some((n, pos + pat.len() + dec_rep(n).len())),
{
    let pl = pat.len() as int;
    let rl = dec_rep(n).len() as int;
    let whole = s.subrange(pos, pos + pl + rl);
    lemma_dec_rep(n);
    assert forall|k: int| 0 <= k < pl + rl implies s[pos + k] == (pat + dec_rep(n))[k] by {
        assert(whole[k] == s[pos + k]);
    }
    assert(s.subrange(pos, pos + pl) =~= pat);
    assert(chunk_at(s, pos, pat) == Some(pos + pl));
    let ds = s.subrange(pos + pl, pos + pl + rl);
    assert forall|t: int| 0 <= t < rl implies ds[t] == dec_rep(n)[t] by {
        assert(ds[t] == s[pos + pl + t]);
        assert(whole[pl + t] == s[pos + (pl + t)]);
        assert((pat + dec_rep(n))[pl + t] == dec_rep(n)[t]);
    }
    assert(ds =~= dec_rep(n));
    assert forall|k: int| pos + pl <= k < pos + pl + rl implies is_digit(#[trigger] s[k]) by {
        assert(ds[k - pos - pl] == s[k]);
    }
    lemma_digit_run_end_unique(s, pos + pl, pos + pl + rl);
    assert(s[pos + pl] == dec_rep(n)[0]);
    if s[pos + pl] == 48 {
        assert(n == 0);
        assert(rl == 1);
    }
    assert(val(ds) == n);
    assert(parse_dec_spec(s, pos + pl) == Some((n, pos + pl + rl)));
}

/// Where the version number ends in a canonical document.
spec fn after_version(d: SaveData) -> int {
    pre_version().len() + dec_rep(d.version as nat).len() as int
}

/// Where the snacks number ends in a canonical document.
spec fn after_snacks(d: SaveData) -> int {
    after_version(d) + pre_snacks().len() + dec_rep(d.snacks as nat).len()
}

/// Where the click counter ends in a canonical document.
spec fn after_clicks(d: SaveData) -> int {
    after_snacks(d) + pre_total_clicks().len() + dec_rep(d.stats.total_clicks as nat).len()
}

/// Where the feeding counter ends in a canonical document.
spec fn after_feedings(d: SaveData) -> int {
    after_clicks(d) + pre_total_feedings().len() + dec_rep(d.stats.total_feedings as nat).len()
}

/// Where the peak balance ends in a canonical document.
spec fn after_peak(d: SaveData) -> int {
    after_feedings(d) + pre_peak_snacks().len() + dec_rep(d.stats.peak_snacks as nat).len()
}

/// Where the playtime counter ends in a canonical document.
spec fn after_playtime(d: SaveData) -> int {
    after_peak(d) + pre_session_playtime().len() + dec_rep(d.stats.session_playtime as nat).len()
}

/// How a canonical document splits into its key-and-number segments.
#[verifier::rlimit(60)]
proof fn lemma_encoded_layout(d: SaveData)
    ensures
        encoded(d).len() == after_playtime(d) + suffix().len(),
        encoded(d).subrange(0, after_version(d)) == pre_version() + dec_rep(d.version as nat),
        encoded(d).subrange(after_version(d), after_snacks(d)) == pre_snacks() + dec_rep(
            d.snacks as nat,
        ),
        encoded(d).subrange(after_snacks(d), after_clicks(d)) == pre_total_clicks() + dec_rep(
            d.stats.total_clicks as nat,
        ),
        encoded(d).subrange(after_clicks(d), after_feedings(d)) == pre_total_feedings() + dec_rep(
            d.stats.total_feedings as nat,
        ),
        encoded(d).subrange(after_feedings(d), after_peak(d)) == pre_peak_snacks() + dec_rep(
            d.stats.peak_snacks as nat,
        ),
        encoded(d).subrange(after_peak(d), after_playtime(d)) == pre_session_playtime() + dec_rep(
            d.stats.session_playtime as nat,
        ),
        encoded(d).subrange(after_playtime(d), encoded(d).len() as int) == suffix(),
{
    let s = encoded(d);
    let r1 = dec_rep(d.version as nat);
    let r2 = dec_rep(d.snacks as nat);
    let r3 = dec_rep(d.stats.total_clicks as nat);
    let r4 = dec_rep(d.stats.total_feedings as nat);
    let r5 = dec_rep(d.stats.peak_snacks as nat);
    let r6 = dec_rep(d.stats.session_playtime as nat);
    let t1 = pre_version() + r1;
    let t2 = t1 + pre_snacks() + r2;
    let t3 = t2 + pre_total_clicks() + r3;
    let t4 = t3 + pre_total_feedings() + r4;
    let t5 = t4 + pre_peak_snacks() + r5;
    let t6 = t5 + pre_session_playtime() + r6;
    let q1 = after_version(d);
    let q2 = after_snacks(d);
    let q3 = after_clicks(d);
    let q4 = after_feedings(d);
    let q5 = after_peak(d);
    let q6 = after_playtime(d);
    assert(s == t6 + suffix());
    assert(s.subrange(q6, s.len() as int) =~= suffix());
    assert(s.subrange(0, q6) =~= t6);
    assert forall|t: int| q5 <= t < q6 implies s[t] == t6[t] by {
        assert(s.subrange(0, q6)[t] == s[t]);
    }
    assert(s.subrange(q5, q6) =~= pre_session_playtime() + r6);
    assert(s.subrange(0, q5) =~= t5);
    assert forall|t: int| q4 <= t < q5 implies s[t] == t5[t] by {
        assert(s.subrange(0, q5)[t] == s[t]);
    }
    assert(s.subrange(q4, q5) =~= pre_peak_snacks() + r5);
    assert(s.subrange(0, q4) =~= t4);
    assert forall|t: int| q3 <= t < q4 implies s[t] == t4[t] by {
        assert(s.subrange(0, q4)[t] == s[t]);
    }
    assert(s.subrange(q3, q4) =~= pre_total_feedings() + r4);
    assert(s.subrange(0, q3) =~= t3);
    assert forall|t: int| q2 <= t < q3 implies s[t] == t3[t] by {
        assert(s.subrange(0, q3)[t] == s[t]);
    }
    assert(s.subrange(q2, q3) =~= pre_total_clicks() + r3);
    assert(s.subrange(0, q2) =~= t2);
    assert forall|t: int| q1 <= t < q2 implies s[t] == t2[t] by {
        assert(s.subrange(0, q2)[t] == s[t]);
    }
    assert(s.subrange(q1, q2) =~= pre_snacks() + r2);
    assert(s.subrange(0, q1) =~= t1);
}

/// Each field of a canonical document reads back as the value it encodes.
#[verifier::rlimit(60)]
proof fn lemma_parse_fields(d: SaveData)
    ensures
        field_at(encoded(d), 0, pre_version()) == Some((d.version as nat, after_version(d))),
        field_at(encoded(d), after_version(d), pre_snacks()) == Some(
            (d.snacks as nat, after_snacks(d)),
        ),
        field_at(encoded(d), after_snacks(d), pre_total_clicks()) == Some(
            (d.stats.total_clicks as nat, after_clicks(d)),
        ),
        field_at(encoded(d), after_clicks(d), pre_total_feedings()) == Some(
            (d.stats.total_feedings as nat, after_feedings(d)),
        ),
        field_at(encoded(d), after_feedings(d), pre_peak_snacks()) == Some(
            (d.stats.peak_snacks as nat, after_peak(d)),
        ),
        field_at(encoded(d), after_peak(d), pre_session_playtime()) == Some(
            (d.stats.session_playtime as nat, after_playtime(d)),
        ),
        chunk_at(encoded(d), after_playtime(d), suffix()) == Some(encoded(d).len() as int),
{
    let s = encoded(d);
    lemma_encoded_layout(d);
    lemma_dec_rep(d.version as nat);
    lemma_dec_rep(d.snacks as nat);
    lemma_dec_rep(d.stats.total_clicks as nat);
    lemma_dec_rep(d.stats.total_feedings as nat);
    lemma_dec_rep(d.stats.peak_snacks as nat);
    lemma_dec_rep(d.stats.session_playtime as nat);
    let q1 = after_version(d);
    let q2 = after_snacks(d);
    let q3 = after_clicks(d);
    let q4 = after_feedings(d);
    let q5 = after_peak(d);
    let q6 = after_playtime(d);
    assert(s[q1] == 44) by {
        assert(s.subrange(q1, q2)[0] == s[q1]);
    }
    assert(s[q2] == 44) by {
        assert(s.subrange(q2, q3)[0] == s[q2]);
    }
    assert(s[q3] == 44) by {
        assert(s.subrange(q3, q4)[0] == s[q3]);
    }
    assert(s[q4] == 44) by {
        assert(s.subrange(q4, q5)[0] == s[q4]);
    }
    assert(s[q5] == 44) by {
        assert(s.subrange(q5, q6)[0] == s[q5]);
    }
    assert(s[q6] == 125) by {
        assert(s.subrange(q6, s.len() as int)[0] == s[q6]);
    }
    lemma_field_at_complete(s, 0, pre_version(), d.version as nat);
    lemma_field_at_complete(s, q1, pre_snacks(), d.snacks as nat);
    lemma_field_at_complete(s, q2, pre_total_clicks(), d.stats.total_clicks as nat);
    lemma_field_at_complete(s, q3, pre_total_feedings(), d.stats.total_feedings as nat);
    lemma_field_at_complete(s, q4, pre_peak_snacks(), d.stats.peak_snacks as nat);
    lemma_field_at_complete(s, q5, pre_session_playtime(), d.stats.session_playtime as nat);
}

/// Round trip: parsing the canonical document of any save state yields that
/// very state. Together with the contract of [`parse_save`] this means a
/// state written by [`encode_save`] is read back equal in all fields.
pub proof fn lemma_parse_save_complete(d: SaveData)
    ensures
        spec_parse_save(encoded(d)) == Some(d),
{
    lemma_parse_fields(d);
    assert(spec_parse_save(encoded(d)) == Some(
        mk_save(
            d.version as nat,
            d.snacks as nat,
            d.stats.total_clicks as nat,
            d.stats.total_feedings as nat,
            d.stats.peak_snacks as nat,
            d.stats.session_playtime as nat,
        ),
    ));
}

/// A number the parser reads sits in the document as its canonical
/// representation, with no digit following it.
proof fn lemma_parse_dec_sound(s: Seq<u8>, i: int)
    requires
        0 <= i <= s.len(),
        parse_dec_spec(s, i) is Some,
    ensures
        ({
            let p = parse_dec_spec(s, i)->0;
            &&& i < p.1 <= s.len()
            &&& s.subrange(i, p.1) == dec_rep(p.0)
            &&& p.1 == s.len() || !is_digit(s[p.1])
        }),
{
    lemma_digit_run_end(s, i);
    let e = digit_run_end(s, i);
    let ds = s.subrange(i, e);
    assert forall|k: int| 0 <= k < ds.len() implies is_digit(#[trigger] ds[k]) by {
        assert(ds[k] == s[i + k]);
    }
    assert(ds[0] == s[i]);
    lemma_canonical_digits_unique(ds);
}

/// The parser accepts nothing but canonical documents: a document it reads
/// back as some state is that state's canonical document.
#[verifier::rlimit(60)]
pub proof fn lemma_parse_save_sound(s: Seq<u8>)
    requires
        spec_parse_save(s) is Some,
    ensures
        s == encoded(spec_parse_save(s)->0),
{
    let d = spec_parse_save(s)->0;
    let c1 = pre_version();
    let c2 = pre_snacks();
    let c3 = pre_total_clicks();
    let c4 = pre_total_feedings();
    let c5 = pre_peak_snacks();
    let c6 = pre_session_playtime();
    let f1 = field_at(s, 0, c1)->0;
    let version = f1.0;
    let q1 = f1.1;
    let f2 = field_at(s, q1, c2)->0;
    let snacks = f2.0;
    let q2 = f2.1;
    let f3 = field_at(s, q2, c3)->0;
    let clicks = f3.0;
    let q3 = f3.1;
    let f4 = field_at(s, q3, c4)->0;
    let feedings = f4.0;
    let q4 = f4.1;
    let f5 = field_at(s, q4, c5)->0;
    let peak = f5.0;
    let q5 = f5.1;
    let f6 = field_at(s, q5, c6)->0;
    let playtime = f6.0;
    let q6 = f6.1;
    assert(d == mk_save(version, snacks, clicks, feedings, peak, playtime));
    lemma_parse_dec_sound(s, c1.len() as int);
    lemma_parse_dec_sound(s, q1 + c2.len());
    lemma_parse_dec_sound(s, q2 + c3.len());
    lemma_parse_dec_sound(s, q3 + c4.len());
    lemma_parse_dec_sound(s, q4 + c5.len());
    lemma_parse_dec_sound(s, q5 + c6.len());
    let r1 = dec_rep(version);
    let r2 = dec_rep(snacks);
    let r3 = dec_rep(clicks);
    let r4 = dec_rep(feedings);
    let r5 = dec_rep(peak);
    let r6 = dec_rep(playtime);
    assert(dec_rep(d.version as nat) == r1);
    assert(dec_rep(d.snacks as nat) == r2);
    assert(dec_rep(d.stats.total_clicks as nat) == r3);
    assert(dec_rep(d.stats.total_feedings as nat) == r4);
    assert(dec_rep(d.stats.peak_snacks as nat) == r5);
    assert(dec_rep(d.stats.session_playtime as nat) == r6);
    let t1 = c1 + r1;
    let t2 = t1 + c2 + r2;
    let t3 = t2 + c3 + r3;
    let t4 = t3 + c4 + r4;
    let t5 = t4 + c5 + r5;
    let t6 = t5 + c6 + r6;
    assert(s.subrange(0, q1) =~= t1);
    assert(s.subrange(0, q2) =~= t2) by {
        assert(forall|k: int| 0 <= k < q1 ==> #[trigger] s.subrange(0, q2)[k] == s.subrange(
            0,
            q1,
        )[k]);
    }
    assert(s.subrange(0, q3) =~= t3) by {
        assert(forall|k: int| 0 <= k < q2 ==> #[trigger] s.subrange(0, q3)[k] == s.subrange(
            0,
            q2,
        )[k]);
    }
    assert(s.subrange(0, q4) =~= t4) by {
        assert(forall|k: int| 0 <= k < q3 ==> #[trigger] s.subrange(0, q4)[k] == s.subrange(
            0,
            q3,
        )[k]);
    }
    assert(s.subrange(0, q5) =~= t5) by {
        assert(forall|k: int| 0 <= k < q4 ==> #[trigger] s.subrange(0, q5)[k] == s.subrange(
            0,
            q4,
        )[k]);
    }
    assert(s.subrange(0, q6) =~= t6) by {
        assert(forall|k: int| 0 <= k < q5 ==> #[trigger] s.subrange(0, q6)[k] == s.subrange(
            0,
            q5,
        )[k]);
    }
    assert(s =~= t6 + suffix()) by {
        assert(forall|k: int| 0 <= k < q6 ==> #[trigger] s[k] == s.subrange(0, q6)[k]);
    }
    assert(encoded(d) == t6 + suffix());
}

} // verus!
