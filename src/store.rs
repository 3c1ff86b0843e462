//! Operations over the bytes of the detach list: a linear scan into records,
//! appending a record, and cutting a record's byte range out.
//!
//! The list is a plain sequence of records with no header, trailer or
//! checksum, so a record whose declared length runs past the end of the
//! bytes cannot be skipped over: scanning reports it and yields nothing.
use vstd::prelude::*;
use crate::lines::{lines, split_lines, trim_blanks, trim_line};
use crate::codec::{
    decode, every_other, lemma_decode_encode, lemma_record_shape, record, record_of,
    valid_name, MAX_NAME_LEN,
};

verus! {

/// A scanned entry in the model: the decoded name, and the half-open byte
/// range `[start, end)` that its record occupies.
pub type Span = (Seq<u8>, int, int);

/// Parses `buf` as a sequence of records, where `buf` starts at offset `base`
/// of the whole list. On a record whose declared length exceeds what is left,
/// the result is `Err` with the offset of that record's length byte.
pub open spec fn parse(buf: Seq<u8>, base: int) -> Result<Seq<Span>, int>
    decreases buf.len(),
{
    if buf.len() == 0 {
        Ok(Seq::empty())
    } else {
        let l = buf[0] as int;
        if 1 + l > buf.len() {
            Err(base)
        } else {
            let entry: Span = (every_other(buf.subrange(1, 1 + l)), base, base + 1 + l);
            prepend(seq![entry], parse(buf.subrange(1 + l, buf.len() as int), base + 1 + l))
        }
    }
}

/// The records of a whole list.
pub open spec fn scanned(buf: Seq<u8>) -> Result<Seq<Span>, int> {
    parse(buf, 0)
}

/// Puts `done` in front of a parse result; an error stays as it is.
pub open spec fn prepend(done: Seq<Span>, rest: Result<Seq<Span>, int>) -> Result<Seq<Span>, int> {
    match rest {
        Ok(r) => Ok(done + r),
        Err(at) => Err(at),
    }
}

/// The names of a sequence of entries, in order.
pub open spec fn names(entries: Seq<Span>) -> Seq<Seq<u8>> {
    entries.map_values(|e: Span| e.0)
}

/// `buf` with the byte range `[start, end)` cut out.
pub open spec fn cut(buf: Seq<u8>, start: int, end: int) -> Seq<u8> {
    buf.subrange(0, start) + buf.subrange(end, buf.len() as int)
}

/// The list after adding `name` unless a record of that name is already in it.
pub open spec fn with_name(buf: Seq<u8>, name: Seq<u8>) -> Seq<u8> {
    match scanned(buf) {
        Ok(entries) => if names(entries).contains(name) {
            buf
        } else {
            buf + record_of(name)
        },
        Err(_) => buf,
    }
}

/// One record of the list, as a scan finds it.
pub struct DetachRecord {
    /// The decoded name.
    pub name: Vec<u8>,
    /// Offset of the record's length byte.
    pub start: usize,
    /// Offset just past the record's last byte.
    pub end: usize,
}

impl View for DetachRecord {
    type V = Span;

    open spec fn view(&self) -> Span {
        (self.name@, self.start as int, self.end as int)
    }
}

/// The model of a sequence of scanned records.
pub open spec fn spans(records: Seq<DetachRecord>) -> Seq<Span> {
    records.map_values(|r: DetachRecord| r@)
}

/// Why a list could not be scanned.
#[derive(PartialEq, Eq, Structural, Clone, Copy, Debug)]
pub enum ScanError {
    /// The record whose length byte stands at this offset declares more
    /// bytes than the list has left.
    Truncated(usize),
}

/// Scans the bytes of a list, left to right, into its records.
pub fn scan(buf: &[u8]) -> (r: Result<Vec<DetachRecord>, ScanError>)
    ensures
        match r {
            Ok(records) => scanned(buf@) == Ok::<Seq<Span>, int>(spans(records@)),
            Err(ScanError::Truncated(at)) => scanned(buf@) == Err::<Seq<Span>, int>(at as int),
        },
{
    let len = buf.len();
    let mut out: Vec<DetachRecord> = Vec::new();
    let mut pos: usize = 0;
    proof {
        assert(buf@.subrange(0, len as int) =~= buf@);
        assert(spans(out@) =~= Seq::<Span>::empty());
        assert(prepend(Seq::empty(), parse(buf@, 0)) =~= parse(buf@, 0)) by {
            match parse(buf@, 0) {
                Ok(r) => {
                    assert(Seq::<Span>::empty() + r =~= r);
                },
                Err(_) => {},
            }
        }
    }
    while pos < len
        invariant
            len == buf@.len(),
            pos <= len,
            scanned(buf@) == prepend(spans(out@), parse(buf@.subrange(pos as int, len as int), pos as int)),
        decreases len - pos,
    {
        let ghost sub = buf@.subrange(pos as int, len as int);
        let l = buf[pos] as usize;
        assert(sub[0] == buf@[pos as int]);
        if l > len - pos - 1 {
            return Err(ScanError::Truncated(pos));
        }
        let next = pos + 1 + l;
        let name = decode(&buf[pos + 1..next]);
        let rec = DetachRecord { name, start: pos, end: next };
        proof {
            assert(sub.subrange(1, 1 + l as int) =~= buf@.subrange(pos + 1, next as int));
            assert(sub.subrange(1 + l as int, sub.len() as int) =~= buf@.subrange(next as int, len as int));
            let rest = parse(buf@.subrange(next as int, len as int), next as int);
            assert(rec@ == (every_other(sub.subrange(1, 1 + l as int)), pos as int, next as int));
            assert(parse(sub, pos as int) == prepend(seq![rec@], rest));
            let ghost old_spans = spans(out@);
            assert(prepend(old_spans, prepend(seq![rec@], rest)) == prepend(old_spans.push(rec@), rest)) by {
                match rest {
                    Ok(r) => {
                        assert(old_spans + (seq![rec@] + r) =~= old_spans.push(rec@) + r);
                    },
                    Err(_) => {},
                }
            }
        }
        let ghost before = out@;
        out.push(rec);
        proof {
            assert(spans(out@) =~= spans(before).push(rec@));
        }
        pos = next;
    }
    proof {
        assert(buf@.subrange(len as int, len as int) =~= Seq::<u8>::empty());
        assert(spans(out@) + Seq::<Span>::empty() =~= spans(out@));
    }
    Ok(out)
}

/// Cuts the byte range `[start, end)` out of the list, shifting what follows
/// it to the left.
pub fn remove_range(content: &mut Vec<u8>, start: usize, end: usize)
    requires
        start <= end <= old(content)@.len(),
    ensures
        final(content)@ == cut(old(content)@, start as int, end as int),
{
    let len = content.len();
    let mut kept: Vec<u8> = Vec::with_capacity(len - (end - start));
    let mut i: usize = 0;
    while i < start
        invariant
            i <= start <= end <= len,
            len == content@.len(),
            kept@ =~= content@.subrange(0, i as int),
        decreases start - i,
    {
        kept.push(content[i]);
        i = i + 1;
    }
    let mut j: usize = end;
    while j < len
        invariant
            start <= end <= j <= len,
            len == content@.len(),
            kept@ =~= content@.subrange(0, start as int) + content@.subrange(end as int, j as int),
        decreases len - j,
    {
        kept.push(content[j]);
        j = j + 1;
    }
    *content = kept;
}

/// Adds the record of `name` at the end of the list.
pub fn append_record(content: &mut Vec<u8>, name: &[u8])
    requires
        valid_name(name@),
    ensures
        final(content)@ == old(content)@ + record_of(name@),
{
    let rec = record(name);
    let ghost start = content@;
    let mut i: usize = 0;
    while i < rec.len()
        invariant
            i <= rec@.len(),
            content@ =~= start + rec@.subrange(0, i as int),
        decreases rec@.len() - i,
    {
        content.push(rec[i]);
        i = i + 1;
    }
    assert(rec@.subrange(0, rec@.len() as int) =~= rec@);
}

/// Whether two byte strings are equal.
fn same_bytes(a: &[u8], b: &[u8]) -> (r: bool)
    ensures
        r == (a@ == b@),
{
    if a.len() != b.len() {
        return false;
    }
    let mut i: usize = 0;
    while i < a.len()
        invariant
            a@.len() == b@.len(),
            i <= a@.len(),
            forall|k: int| 0 <= k < i ==> a@[k] == b@[k],
        decreases a@.len() - i,
    {
        if a[i] != b[i] {
            return false;
        }
        i = i + 1;
    }
    assert(a@ =~= b@);
    true
}

/// Whether one of the records carries `name`.
pub fn contains_name(records: &[DetachRecord], name: &[u8]) -> (r: bool)
    ensures
        r == names(spans(records@)).contains(name@),
{
    let mut i: usize = 0;
    while i < records.len()
        invariant
            i <= records@.len(),
            forall|k: int| 0 <= k < i ==> records@[k].name@ != name@,
        decreases records@.len() - i,
    {
        if same_bytes(records[i].name.as_slice(), name) {
            assert(names(spans(records@))[i as int] == name@);
            return true;
        }
        i = i + 1;
    }
    proof {
        if names(spans(records@)).contains(name@) {
            let k = choose|k: int| 0 <= k < names(spans(records@)).len() && names(spans(records@))[k] == name@;
            assert(records@[k].name@ == name@);
        }
    }
    false
}

/// Adds `name` to the list unless the list already holds it. Returns whether
/// the list changed; a list that cannot be scanned is left as it is.
pub fn add_if_absent(content: &mut Vec<u8>, name: &[u8]) -> (r: Result<bool, ScanError>)
    requires
        valid_name(name@),
    ensures
        final(content)@ == with_name(old(content)@, name@),
        match r {
            Ok(added) => scanned(old(content)@) is Ok
                && added == !names(scanned(old(content)@)->Ok_0).contains(name@),
            Err(ScanError::Truncated(at)) => scanned(old(content)@) == Err::<Seq<Span>, int>(at as int),
        },
{
    let records = match scan(content.as_slice()) {
        Ok(records) => records,
        Err(e) => return Err(e),
    };
    if contains_name(records.as_slice(), name) {
        Ok(false)
    } else {
        append_record(content, name);
        Ok(true)
    }
}

/// A single record parses to exactly its name and its own byte range.
pub proof fn lemma_parse_record(name: Seq<u8>, base: int)
    requires
        valid_name(name),
    ensures
        parse(record_of(name), base) == Ok::<Seq<Span>, int>(seq![(name, base, base + 2 * name.len())]),
{
    let rec = record_of(name);
    let l = 2 * name.len() - 1;
    lemma_record_shape(name);
    lemma_decode_encode(name);
    assert(rec.subrange(1 + l, rec.len() as int) =~= Seq::<u8>::empty());
    assert(parse(Seq::<u8>::empty(), base + 1 + l) == Ok::<Seq<Span>, int>(Seq::empty()));
    assert(seq![(name, base, base + 2 * name.len())] + Seq::<Span>::empty() =~= seq![(name, base, base + 2 * name.len())]);
}

/// Parsing a list followed by more bytes gives the list's entries, then the
/// entries of the rest, whose ranges start where the list ends.
pub proof fn lemma_parse_append(x: Seq<u8>, y: Seq<u8>, base: int)
    requires
        parse(x, base) is Ok,
    ensures
        parse(x + y, base) == prepend(parse(x, base)->Ok_0, parse(y, base + x.len())),
    decreases x.len(),
{
    if x.len() == 0 {
        assert(x + y =~= y);
        match parse(y, base) {
            Ok(r) => { assert(Seq::<Span>::empty() + r =~= r); },
            Err(_) => {},
        }
    } else {
        let l = x[0] as int;
        let xs = x.subrange(1 + l, x.len() as int);
        let xy = x + y;
        assert(xy[0] == x[0]);
        assert(xy.subrange(1, 1 + l) =~= x.subrange(1, 1 + l));
        assert(xy.subrange(1 + l, xy.len() as int) =~= xs + y);
        lemma_parse_append(xs, y, base + 1 + l);
        let head: Span = (every_other(x.subrange(1, 1 + l)), base, base + 1 + l);
        let tail = parse(y, base + x.len());
        assert(base + 1 + l + xs.len() == base + x.len());
        match tail {
            Ok(r) => {
                assert(seq![head] + (parse(xs, base + 1 + l)->Ok_0 + r) =~= (seq![head] + parse(xs, base + 1 + l)->Ok_0) + r);
            },
            Err(_) => {},
        }
    }
}

/// Two records written one after the other scan back as those two names,
/// with byte ranges that cover the whole buffer, end to end, without gaps or
/// overlap.
pub proof fn lemma_scan_two(a: Seq<u8>, b: Seq<u8>)
    requires
        valid_name(a),
        valid_name(b),
    ensures
        ({
            let ea: int = 2 * a.len() as int;
            let eb: int = ea + 2 * b.len();
            &&& scanned(record_of(a) + record_of(b)) == Ok::<Seq<Span>, int>(seq![(a, 0, ea), (b, ea, eb)])
            &&& (record_of(a) + record_of(b)).len() == eb
        }),
{
    let ea: int = 2 * a.len() as int;
    let eb: int = ea + 2 * b.len();
    lemma_record_shape(a);
    lemma_record_shape(b);
    lemma_parse_record(a, 0);
    lemma_parse_record(b, ea);
    lemma_parse_append(record_of(a), record_of(b), 0);
    assert(seq![(a, 0int, ea)] + seq![(b, ea, eb)] =~= seq![(a, 0int, ea), (b, ea, eb)]);
}

/// Where a list starts in the whole buffer changes the ranges it parses to,
/// never whether it parses nor the names.
pub proof fn lemma_parse_base(buf: Seq<u8>, b1: int, b2: int)
    ensures
        parse(buf, b1) is Ok == parse(buf, b2) is Ok,
        parse(buf, b1) is Ok ==> names(parse(buf, b1)->Ok_0) == names(parse(buf, b2)->Ok_0),
    decreases buf.len(),
{
    if buf.len() > 0 {
        let l = buf[0] as int;
        if 1 + l <= buf.len() {
            let rest = buf.subrange(1 + l, buf.len() as int);
            lemma_parse_base(rest, b1 + 1 + l, b2 + 1 + l);
            if parse(rest, b1 + 1 + l) is Ok {
                let r1 = parse(rest, b1 + 1 + l)->Ok_0;
                let r2 = parse(rest, b2 + 1 + l)->Ok_0;
                let n = every_other(buf.subrange(1, 1 + l));
                assert(names(seq![(n, b1, b1 + 1 + l)] + r1) =~= seq![n] + names(r1));
                assert(names(seq![(n, b2, b2 + 1 + l)] + r2) =~= seq![n] + names(r2));
            }
        }
    }
}

/// Cutting out the byte range of one entry leaves a list that parses to the
/// other entries' names, in their order.
pub proof fn lemma_cut_entry(buf: Seq<u8>, base: int, k: int)
    requires
        parse(buf, base) is Ok,
        0 <= k < parse(buf, base)->Ok_0.len(),
    ensures
        ({
            let entries = parse(buf, base)->Ok_0;
            let after = parse(cut(buf, entries[k].1 - base, entries[k].2 - base), base);
            &&& after is Ok
            &&& names(after->Ok_0) == names(entries).remove(k)
        }),
    decreases buf.len(),
{
    let entries = parse(buf, base)->Ok_0;
    let l = buf[0] as int;
    let rest = buf.subrange(1 + l, buf.len() as int);
    let tail = parse(rest, base + 1 + l)->Ok_0;
    let n = every_other(buf.subrange(1, 1 + l));
    assert(entries == seq![(n, base, base + 1 + l)] + tail);
    if k == 0 {
        assert(cut(buf, 0, 1 + l) =~= rest);
        lemma_parse_base(rest, base + 1 + l, base);
        assert(names(entries).remove(0) =~= names(tail));
    } else {
        assert(entries[k] == tail[k - 1]);
        let s = tail[k - 1].1 - (base + 1 + l);
        let e = tail[k - 1].2 - (base + 1 + l);
        lemma_cut_entry(rest, base + 1 + l, k - 1);
        lemma_entry_bounds(rest, base + 1 + l, k - 1);
        let z = cut(rest, s, e);
        let whole = cut(buf, entries[k].1 - base, entries[k].2 - base);
        assert(whole =~= buf.subrange(0, 1 + l) + z);
        assert(whole[0] == buf[0]);
        assert(whole.subrange(1, 1 + l) =~= buf.subrange(1, 1 + l));
        assert(whole.subrange(1 + l, whole.len() as int) =~= z);
        let zt = parse(z, base + 1 + l)->Ok_0;
        assert(names(seq![(n, base, base + 1 + l)] + zt) =~= seq![n] + names(zt));
        assert(names(entries) =~= seq![n] + names(tail));
        assert(names(entries).remove(k) =~= seq![n] + names(tail).remove(k - 1));
    }
}

/// Each entry's range lies inside the parsed bytes, after `base`.
pub proof fn lemma_entry_bounds(buf: Seq<u8>, base: int, k: int)
    requires
        parse(buf, base) is Ok,
        0 <= k < parse(buf, base)->Ok_0.len(),
    ensures
        base <= parse(buf, base)->Ok_0[k].1 < parse(buf, base)->Ok_0[k].2 <= base + buf.len(),
    decreases buf.len(),
{
    let l = buf[0] as int;
    let rest = buf.subrange(1 + l, buf.len() as int);
    if k > 0 {
        lemma_entry_bounds(rest, base + 1 + l, k - 1);
    }
}

/// Removing one entry's range from a list and scanning again gives the other
/// names in the order they had.
pub proof fn lemma_remove_keeps_others(buf: Seq<u8>, k: int)
    requires
        scanned(buf) is Ok,
        0 <= k < scanned(buf)->Ok_0.len(),
    ensures
        ({
            let entries = scanned(buf)->Ok_0;
            let after = scanned(cut(buf, entries[k].1, entries[k].2));
            &&& after is Ok
            &&& names(after->Ok_0) == names(entries).remove(k)
        }),
{
    lemma_cut_entry(buf, 0, k);
}

/// Adding a name when absent, a second time, changes nothing: the list keeps
/// exactly one record of that name.
pub proof fn lemma_add_twice(buf: Seq<u8>, name: Seq<u8>)
    requires
        scanned(buf) is Ok,
        valid_name(name),
    ensures
        with_name(with_name(buf, name), name) == with_name(buf, name),
        scanned(with_name(buf, name)) is Ok,
        names(scanned(with_name(buf, name))->Ok_0).contains(name),
        names(scanned(buf)->Ok_0).contains(name) ==> with_name(buf, name) == buf,
        !names(scanned(buf)->Ok_0).contains(name) ==> names(scanned(with_name(buf, name))->Ok_0)
            == names(scanned(buf)->Ok_0).push(name),
{
    let entries = scanned(buf)->Ok_0;
    if !names(entries).contains(name) {
        lemma_parse_record(name, buf.len() as int);
        lemma_parse_append(buf, record_of(name), 0);
        let span: Span = (name, buf.len() as int, (buf.len() + 2 * name.len()) as int);
        assert(names(entries + seq![span]) =~= names(entries).push(name));
        assert(names(entries).push(name)[names(entries).len() as int] == name);
    }
}

/// The names that a plain-text list gives: each line trimmed of Unicode
/// whitespace, empty lines and lines starting with `#` skipped.
pub open spec fn listed_names(ls: Seq<Seq<u8>>) -> Seq<Seq<u8>>
    decreases ls.len(),
{
    if ls.len() == 0 {
        Seq::empty()
    } else {
        let t = trim_blanks(ls.last());
        let rest = listed_names(ls.drop_last());
        if t.len() == 0 || t[0] == 35 {
            rest
        } else {
            rest.push(t)
        }
    }
}

/// The records of `names`, one after the other.
pub open spec fn records_of(names: Seq<Seq<u8>>) -> Seq<u8>
    decreases names.len(),
{
    if names.len() == 0 {
        Seq::empty()
    } else {
        records_of(names.drop_last()) + record_of(names.last())
    }
}

/// Every name fits in a record.
pub open spec fn all_fit(names: Seq<Seq<u8>>) -> bool {
    forall|i: int| 0 <= i < names.len() ==> #[trigger] names[i].len() <= MAX_NAME_LEN
}

/// Why a plain-text list could not be turned into a detach list.
#[derive(PartialEq, Eq, Structural, Clone, Copy, Debug)]
pub enum ImportError {
    /// The line at this index, counted from 0, names more than 128 bytes.
    NameTooLong(usize),
}

proof fn lemma_listed_grows(ls: Seq<Seq<u8>>, k: int)
    requires
        0 <= k < ls.len(),
    ensures
        ls.take(k + 1).drop_last() == ls.take(k),
        ls.take(k + 1).last() == ls[k],
{
    assert(ls.take(k + 1).drop_last() =~= ls.take(k));
}

proof fn lemma_unfit_stays(ls: Seq<Seq<u8>>, k: int)
    requires
        0 <= k <= ls.len(),
        !all_fit(listed_names(ls.take(k))),
    ensures
        !all_fit(listed_names(ls)),
    decreases ls.len() - k,
{
    if k < ls.len() {
        lemma_listed_grows(ls, k);
        let before = listed_names(ls.take(k));
        let i = choose|i: int| 0 <= i < before.len() && before[i].len() > MAX_NAME_LEN;
        let t = trim_blanks(ls[k]);
        if !(t.len() == 0 || t[0] == 35) {
            assert(before.push(t)[i] == before[i]);
        }
        lemma_unfit_stays(ls, k + 1);
    } else {
        assert(ls.take(k) =~= ls);
    }
}

/// Builds a detach list from a plain-text list with one name per line:
/// each line is trimmed of Unicode whitespace, and empty lines and lines
/// starting with `#` are skipped. Fails on the first line whose name is longer than
/// 128 bytes.
pub fn import_list(text: &[u8]) -> (r: Result<Vec<u8>, ImportError>)
    ensures
        r is Ok <==> all_fit(listed_names(lines(text@))),
        r matches Ok(bin) ==> bin@ == records_of(listed_names(lines(text@))),
        r matches Err(ImportError::NameTooLong(k)) ==> k < lines(text@).len() && trim_blanks(
            lines(text@)[k as int],
        ).len() > MAX_NAME_LEN && trim_blanks(lines(text@)[k as int])[0] != 35 && all_fit(
            listed_names(lines(text@).take(k as int)),
        ),
{
    let ls = split_lines(text);
    let ghost all = lines(text@);
    let mut out: Vec<u8> = Vec::new();
    let mut i: usize = 0;
    while i < ls.len()
        invariant
            i <= ls@.len(),
            all == lines(text@),
            all == ls@.map_values(|v: Vec<u8>| v@),
            all_fit(listed_names(all.take(i as int))),
            out@ == records_of(listed_names(all.take(i as int))),
        decreases ls@.len() - i,
    {
        proof {
            lemma_listed_grows(all, i as int);
        }
        assert(all[i as int] == ls@[i as int]@);
        let t = trim_line(ls[i].as_slice());
        if t.len() == 0 || t[0] == 35u8 {
        } else if t.len() > MAX_NAME_LEN {
            proof {
                let names = listed_names(all.take(i + 1));
                assert(names[names.len() - 1] == t@);
                lemma_unfit_stays(all, i + 1);
            }
            return Err(ImportError::NameTooLong(i));
        } else {
            let ghost names = listed_names(all.take(i as int));
            append_record(&mut out, t.as_slice());
            proof {
                assert(names.push(t@).drop_last() =~= names);
                assert forall|j: int| 0 <= j < names.push(t@).len() implies #[trigger] names.push(
                    t@,
                )[j].len() <= MAX_NAME_LEN by {
                    if j < names.len() {
                        assert(names.push(t@)[j] == names[j]);
                    }
                }
            }
        }
        i = i + 1;
    }
    assert(all.take(ls@.len() as int) =~= all);
    Ok(out)
}

} // verus!
