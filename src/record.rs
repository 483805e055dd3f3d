//! The physical index format. A bucket file is a concatenation of records,
//! each `"\n" + hex(sha256(payload)) + "\t" + payload`. Reading a bucket keeps
//! the payloads whose checksum holds, in file order, and drops everything else
//! (a torn tail, a line without a tab, a corrupted checksum).

use vstd::prelude::*;
use crate::digests::{hex_encode, hex_of, sha256_digest, sha256_of};

verus! {

pub open spec fn ascii_bytes(s: Seq<char>) -> Seq<u8> {
    s.map_values(|c: char| c as u8)
}

/// The checksum text of a payload: lowercase hex of its SHA-256, as bytes.
pub open spec fn checksum_of(payload: Seq<u8>) -> Seq<u8> {
    ascii_bytes(hex_of(sha256_of(payload)))
}

/// The bytes of one record holding `payload`.
pub open spec fn record_of(payload: Seq<u8>) -> Seq<u8> {
    seq![10u8] + checksum_of(payload) + seq![9u8] + payload
}

proof fn lemma_hex_ascii(b: Seq<u8>)
    ensures
        vstd::utf8::is_ascii_chars(hex_of(b)),
    decreases b.len(),
{
    if b.len() > 0 {
        lemma_hex_ascii(b.drop_last());
        let h = hex_of(b);
        let p = hex_of(b.drop_last());
        assert forall|i: int| 0 <= i < h.len() implies '\0' <= #[trigger] h[i] <= '\u{7f}' by {
            if i >= p.len() {
                let x = b.last() / 16;
                let y = b.last() % 16;
                assert(h[i] == crate::digests::hex_digit(x) || h[i] == crate::digests::hex_digit(y));
            }
        }
    }
}

/// The checksum of a payload as stored in its record.
pub fn hash_entry(payload: &[u8]) -> (r: Vec<u8>)
    ensures
        r@ == checksum_of(payload@),
{
    let digest = sha256_digest(payload);
    let text = hex_encode(digest.as_slice());
    proof {
        lemma_hex_ascii(digest@);
        vstd::utf8::is_ascii_chars_encode_utf8(text@);
    }
    let bytes = text.as_str().as_bytes();
    let mut out: Vec<u8> = Vec::new();
    let mut i: usize = 0;
    while i < bytes.len()
        invariant
            bytes@ == vstd::utf8::encode_utf8(text@),
            bytes@.len() == text@.len(),
            forall|k: int| 0 <= k < text@.len() ==> text@[k] as u8 == bytes@[k],
            i <= bytes@.len(),
            out@ == ascii_bytes(text@).subrange(0, i as int),
        decreases bytes@.len() - i,
    {
        out.push(bytes[i]);
        i = i + 1;
        assert(out@ =~= ascii_bytes(text@).subrange(0, i as int));
    }
    assert(out@ =~= ascii_bytes(text@));
    out
}

pub(crate) fn push_all(out: &mut Vec<u8>, b: &[u8])
    ensures
        final(out)@ == old(out)@ + b@,
{
    let mut i: usize = 0;
    while i < b.len()
        invariant
            i <= b@.len(),
            out@ == old(out)@ + b@.subrange(0, i as int),
        decreases b@.len() - i,
    {
        out.push(b[i]);
        i = i + 1;
        assert(out@ =~= old(out)@ + b@.subrange(0, i as int));
    }
    assert(b@ =~= b@.subrange(0, b@.len() as int));
}

/// The record that stores `payload`, ready to be appended to a bucket.
pub fn frame_record(payload: &[u8]) -> (r: Vec<u8>)
    ensures
        r@ == record_of(payload@),
{
    let mut out: Vec<u8> = Vec::new();
    out.push(10u8);
    let sum = hash_entry(payload);
    push_all(&mut out, sum.as_slice());
    out.push(9u8);
    push_all(&mut out, payload);
    assert(out@ =~= record_of(payload@));
    out
}

/// The lines of a text, split at each `\n`: one more line than there are
/// newlines, the last one possibly empty.
pub open spec fn split_lines(s: Seq<u8>) -> Seq<Seq<u8>>
    decreases s.len(),
{
    if s.len() == 0 {
        seq![Seq::empty()]
    } else {
        let ls = split_lines(s.drop_last());
        if s.last() == 10 {
            ls.push(Seq::empty())
        } else {
            ls.drop_last().push(ls.last().push(s.last()))
        }
    }
}

/// Number of tabs in a line.
pub open spec fn tab_count(l: Seq<u8>) -> nat
    decreases l.len(),
{
    if l.len() == 0 {
        0
    } else {
        tab_count(l.drop_last()) + if l.last() == 9 { 1nat } else { 0nat }
    }
}

/// Index of the last tab of a line, or -1.
pub open spec fn last_tab(l: Seq<u8>) -> int
    decreases l.len(),
{
    if l.len() == 0 {
        -1
    } else if l.last() == 9 {
        l.len() - 1
    } else {
        last_tab(l.drop_last())
    }
}

/// The payload a line holds: the line must be `<checksum>\t<payload>` with a
/// single tab and the checksum of that payload.
pub open spec fn line_payload(l: Seq<u8>) -> Option<Seq<u8>> {
    if tab_count(l) == 1 {
        let t = last_tab(l);
        let p = l.subrange(t + 1, l.len() as int);
        if l.subrange(0, t) == checksum_of(p) {
            Some(p)
        } else {
            None
        }
    } else {
        None
    }
}

/// The payloads of the valid lines, in order.
pub open spec fn payloads_of(lines: Seq<Seq<u8>>) -> Seq<Seq<u8>>
    decreases lines.len(),
{
    if lines.len() == 0 {
        Seq::empty()
    } else {
        match line_payload(lines.last()) {
            Some(p) => payloads_of(lines.drop_last()).push(p),
            None => payloads_of(lines.drop_last()),
        }
    }
}

/// The payloads a bucket file holds, in file order.
pub open spec fn bucket_payloads_spec(contents: Seq<u8>) -> Seq<Seq<u8>> {
    payloads_of(split_lines(contents))
}

/// Reads one line: the payload behind a single tab, if the checksum before
/// the tab is the payload's own.
pub fn parse_line(line: &[u8]) -> (r: Option<Vec<u8>>)
    ensures
        match r {
            Some(p) => line_payload(line@) == Some(p@),
            None => line_payload(line@) is None,
        },
{
    let n = line.len();
    let mut tabs: usize = 0;
    let mut last: usize = 0;
    let mut i: usize = 0;
    while i < n
        invariant
            n == line@.len(),
            i <= n,
            tabs == tab_count(line@.subrange(0, i as int)),
            tabs <= i,
            last_tab(line@.subrange(0, i as int)) == if tabs == 0 { -1 } else { last as int },
        decreases n - i,
    {
        proof {
            assert(line@.subrange(0, i + 1).drop_last() =~= line@.subrange(0, i as int));
        }
        if line[i] == 9u8 {
            tabs = tabs + 1;
            last = i;
        }
        i = i + 1;
    }
    assert(line@.subrange(0, n as int) =~= line@);
    if tabs != 1 {
        return None;
    }
    assert(last_tab(line@) == last as int);
    assert(tab_count(line@) == 1);
    assert(last < n) by {
        lemma_last_tab_bound(line@);
    }
    let mut payload: Vec<u8> = Vec::new();
    let mut k: usize = last + 1;
    while k < n
        invariant
            last < n,
            last + 1 <= k <= n,
            n == line@.len(),
            payload@ == line@.subrange(last + 1, k as int),
        decreases n - k,
    {
        payload.push(line[k]);
        k = k + 1;
        assert(payload@ =~= line@.subrange(last + 1, k as int));
    }
    let sum = hash_entry(payload.as_slice());
    if sum.len() != last {
        assert(line@.subrange(0, last as int).len() != sum@.len());
        return None;
    }
    let mut j: usize = 0;
    while j < last
        invariant
            j <= last,
            last < n,
            n == line@.len(),
            sum@.len() == last,
            sum@ == checksum_of(payload@),
            payload@ == line@.subrange(last + 1, n as int),
            last_tab(line@) == last as int,
            tab_count(line@) == 1,
            forall|q: int| 0 <= q < j ==> sum@[q] == line@[q],
        decreases last - j,
    {
        if sum[j] != line[j] {
            assert(line@.subrange(0, last as int)[j as int] != sum@[j as int]);
            return None;
        }
        j = j + 1;
    }
    assert(line@.subrange(0, last as int) =~= sum@);
    Some(payload)
}

proof fn lemma_last_tab_bound(l: Seq<u8>)
    ensures
        -1 <= last_tab(l) < l.len(),
    decreases l.len(),
{
    if l.len() > 0 {
        lemma_last_tab_bound(l.drop_last());
    }
}

/// The payloads of the valid records of a bucket file, in file order.
pub fn bucket_payloads(contents: &[u8]) -> (r: Vec<Vec<u8>>)
    ensures
        r@.map_values(|v: Vec<u8>| v@) == bucket_payloads_spec(contents@),
{
    let n = contents.len();
    let mut out: Vec<Vec<u8>> = Vec::new();
    let mut cur: Vec<u8> = Vec::new();
    let mut i: usize = 0;
    while i < n
        invariant
            n == contents@.len(),
            i <= n,
            split_lines(contents@.subrange(0, i as int)).len() >= 1,
            cur@ == split_lines(contents@.subrange(0, i as int)).last(),
            out@.map_values(|v: Vec<u8>| v@) == payloads_of(
                split_lines(contents@.subrange(0, i as int)).drop_last(),
            ),
        decreases n - i,
    {
        let ghost prev = split_lines(contents@.subrange(0, i as int));
        let ghost next_s = contents@.subrange(0, i + 1);
        proof {
            assert(next_s.drop_last() =~= contents@.subrange(0, i as int));
        }
        let b = contents[i];
        if b == 10u8 {
            proof {
                assert(split_lines(next_s) == prev.push(Seq::<u8>::empty()));
                assert(split_lines(next_s).drop_last() =~= prev);
                assert(prev =~= prev.drop_last().push(prev.last()));
            }
            match parse_line(cur.as_slice()) {
                Some(p) => {
                    out.push(p);
                },
                None => {},
            }
            cur = Vec::new();
            proof {
                assert(out@.map_values(|v: Vec<u8>| v@) =~= payloads_of(prev));
            }
        } else {
            cur.push(b);
            proof {
                assert(split_lines(next_s) == prev.drop_last().push(prev.last().push(b)));
                assert(split_lines(next_s).drop_last() =~= prev.drop_last());
            }
        }
        i = i + 1;
    }
    let ghost all = split_lines(contents@);
    proof {
        assert(contents@.subrange(0, n as int) =~= contents@);
        assert(all =~= all.drop_last().push(all.last()));
    }
    match parse_line(cur.as_slice()) {
        Some(p) => {
            out.push(p);
        },
        None => {},
    }
    proof {
        assert(out@.map_values(|v: Vec<u8>| v@) =~= payloads_of(all));
    }
    out
}


proof fn lemma_last_tab_is_tab(l: Seq<u8>)
    requires
        tab_count(l) > 0,
    ensures
        0 <= last_tab(l) < l.len(),
        l[last_tab(l)] == 9,
    decreases l.len(),
{
    if l.last() != 9 {
        lemma_last_tab_is_tab(l.drop_last());
    }
}

proof fn lemma_line_payload_shape(l: Seq<u8>)
    requires
        line_payload(l) is Some,
    ensures
        l == checksum_of(line_payload(l)->0) + seq![9u8] + line_payload(l)->0,
{
    lemma_last_tab_is_tab(l);
    let t = last_tab(l);
    assert(l =~= l.subrange(0, t) + seq![9u8] + l.subrange(t + 1, l.len() as int));
}

proof fn lemma_payloads_from_lines(lines: Seq<Seq<u8>>, k: int)
    requires
        0 <= k < payloads_of(lines).len(),
    ensures
        exists|j: int| 0 <= j < lines.len() && line_payload(lines[j]) == Some(payloads_of(lines)[k]),
    decreases lines.len(),
{
    let rest = payloads_of(lines.drop_last());
    match line_payload(lines.last()) {
        Some(p) => {
            if k < rest.len() {
                lemma_payloads_from_lines(lines.drop_last(), k);
                let j = choose|j: int| 0 <= j < lines.drop_last().len() && line_payload(lines.drop_last()[j]) == Some(rest[k]);
                assert(lines[j] == lines.drop_last()[j]);
            } else {
                assert(line_payload(lines[lines.len() - 1]) == Some(payloads_of(lines)[k]));
            }
        },
        None => {
            lemma_payloads_from_lines(lines.drop_last(), k);
            let j = choose|j: int| 0 <= j < lines.drop_last().len() && line_payload(lines.drop_last()[j]) == Some(rest[k]);
            assert(lines[j] == lines.drop_last()[j]);
        },
    }
}

/// Every payload read from a bucket stands in the bucket as a whole line
/// `<checksum>\t<payload>`, whose checksum is the hex SHA-256 of the payload.
pub proof fn lemma_payloads_checksummed(contents: Seq<u8>, k: int)
    requires
        0 <= k < bucket_payloads_spec(contents).len(),
    ensures
        exists|j: int|
            0 <= j < split_lines(contents).len() && split_lines(contents)[j] == checksum_of(
                bucket_payloads_spec(contents)[k],
            ) + seq![9u8] + bucket_payloads_spec(contents)[k],
{
    let lines = split_lines(contents);
    lemma_payloads_from_lines(lines, k);
    let j = choose|j: int| 0 <= j < lines.len() && line_payload(lines[j]) == Some(payloads_of(lines)[k]);
    lemma_line_payload_shape(lines[j]);
}


pub open spec fn free_of(s: Seq<u8>, b: u8) -> bool {
    forall|i: int| 0 <= i < s.len() ==> s[i] != b
}

proof fn lemma_checksum_plain(payload: Seq<u8>)
    ensures
        free_of(checksum_of(payload), 9),
        free_of(checksum_of(payload), 10),
{
    let h = hex_of(sha256_of(payload));
    lemma_hex_digits(sha256_of(payload));
    assert forall|i: int| 0 <= i < checksum_of(payload).len() implies checksum_of(payload)[i] != 9
        && checksum_of(payload)[i] != 10 by {
        assert(checksum_of(payload)[i] == h[i] as u8);
    }
}

proof fn lemma_hex_digits(b: Seq<u8>)
    ensures
        forall|i: int|
            0 <= i < hex_of(b).len() ==> (48 <= (#[trigger] hex_of(b)[i]) as u8 <= 57) || (97
                <= (hex_of(b)[i]) as u8 <= 102),
    decreases b.len(),
{
    if b.len() > 0 {
        lemma_hex_digits(b.drop_last());
        let h = hex_of(b);
        let p = hex_of(b.drop_last());
        assert forall|i: int| 0 <= i < h.len() implies (48 <= (#[trigger] h[i]) as u8 <= 57) || (97
            <= (h[i]) as u8 <= 102) by {
            if i < p.len() {
                assert(h[i] == p[i]);
            } else {
                let x = b.last() / 16;
                let y = b.last() % 16;
                assert(h[i] == crate::digests::hex_digit(x) || h[i] == crate::digests::hex_digit(y));
            }
        }
    }
}

proof fn lemma_tab_count_concat(a: Seq<u8>, b: Seq<u8>)
    ensures
        tab_count(a + b) == tab_count(a) + tab_count(b),
    decreases b.len(),
{
    if b.len() == 0 {
        assert(a + b =~= a);
    } else {
        lemma_tab_count_concat(a, b.drop_last());
        assert((a + b).drop_last() =~= a + b.drop_last());
    }
}

proof fn lemma_tab_count_free(a: Seq<u8>)
    requires
        free_of(a, 9),
    ensures
        tab_count(a) == 0,
    decreases a.len(),
{
    if a.len() > 0 {
        lemma_tab_count_free(a.drop_last());
    }
}

proof fn lemma_last_tab_before(a: Seq<u8>, b: Seq<u8>)
    requires
        free_of(b, 9),
    ensures
        last_tab(a + seq![9u8] + b) == a.len(),
    decreases b.len(),
{
    if b.len() == 0 {
        assert(a + seq![9u8] + b =~= a.push(9u8));
        assert(a.push(9u8).last() == 9);
    } else {
        lemma_last_tab_before(a, b.drop_last());
        assert((a + seq![9u8] + b).drop_last() =~= a + seq![9u8] + b.drop_last());
    }
}

proof fn lemma_split_lines_append(c: Seq<u8>, x: Seq<u8>)
    requires
        free_of(x, 10),
    ensures
        split_lines(c + seq![10u8] + x) == split_lines(c).push(x),
    decreases x.len(),
{
    if x.len() == 0 {
        assert(c + seq![10u8] + x =~= c.push(10u8));
        assert(c.push(10u8).drop_last() =~= c);
        assert(x =~= Seq::<u8>::empty());
        assert(c.push(10u8).last() == 10);
    } else {
        let y = x.drop_last();
        lemma_split_lines_append(c, y);
        let s = c + seq![10u8] + x;
        assert(s.drop_last() =~= c + seq![10u8] + y);
        assert(s.last() == x.last());
        assert(x.last() != 10);
        let ls = split_lines(c + seq![10u8] + y);
        assert(ls.drop_last() =~= split_lines(c));
        assert(ls.last() == y);
        assert(y.push(x.last()) =~= x);
        assert(split_lines(c).push(y).drop_last().push(y.push(x.last())) =~= split_lines(c).push(x));
    }
}

/// Appending the record of a payload to a bucket makes that payload the last
/// one read back, after all those the bucket held before. (A JSON payload as
/// written has neither a raw newline nor a raw tab.)
pub proof fn lemma_append_read_back(contents: Seq<u8>, payload: Seq<u8>)
    requires
        free_of(payload, 9),
        free_of(payload, 10),
    ensures
        bucket_payloads_spec(contents + record_of(payload)) == bucket_payloads_spec(contents).push(
            payload,
        ),
{
    let cs = checksum_of(payload);
    let x = cs + seq![9u8] + payload;
    lemma_checksum_plain(payload);
    assert(free_of(x, 10)) by {
        assert forall|i: int| 0 <= i < x.len() implies x[i] != 10 by {
            if i < cs.len() {
                assert(x[i] == cs[i]);
            } else if i > cs.len() {
                assert(x[i] == payload[i - cs.len() - 1]);
            }
        }
    }
    assert(contents + record_of(payload) =~= contents + seq![10u8] + x);
    lemma_split_lines_append(contents, x);
    let lines = split_lines(contents).push(x);
    assert(lines.drop_last() =~= split_lines(contents));
    lemma_tab_count_concat(cs + seq![9u8], payload);
    lemma_tab_count_concat(cs, seq![9u8]);
    lemma_tab_count_free(cs);
    lemma_tab_count_free(payload);
    assert(tab_count(seq![9u8]) == 1) by {
        assert(seq![9u8].drop_last() =~= Seq::<u8>::empty());
        assert(tab_count(Seq::<u8>::empty()) == 0);
        assert(seq![9u8].last() == 9);
    }
    lemma_last_tab_before(cs, payload);
    assert(x.subrange(0, cs.len() as int) =~= cs);
    assert(x.subrange(cs.len() as int + 1, x.len() as int) =~= payload);
    assert(line_payload(x) == Some(payload));
}

} // verus!
