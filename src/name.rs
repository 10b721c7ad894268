//! Domain names on the wire: length-prefixed labels, possibly ended by a
//! 14-bit compression pointer into the whole message.
use crate::error::MessageError;
use crate::text::utf8_string;
use crate::wire::append_bytes;
use std::collections::HashSet;
use vstd::prelude::*;
use vstd::set_lib::lemma_len_subset;
use vstd::utf8::{decode_utf8, encode_utf8, valid_utf8};

verus! {

broadcast use vstd::std_specs::hash::group_hash_axioms;

/// The byte of `.`, which separates labels in a name's text.
pub const DOT: u8 = 46;

/// The byte sequences held by a vector of byte vectors.
pub open spec fn seqs_of(v: Seq<Vec<u8>>) -> Seq<Seq<u8>> {
    v.map_values(|x: Vec<u8>| x@)
}

/// The label sequence that starts at `pos` of `s`: its labels, the
/// compression pointer that ends it (if it does not end with the root
/// label), and the position after it. `None` where `s` ends first.
///
/// A byte whose top two bits are set starts a pointer, whose offset is its
/// low six bits followed by the next byte. A zero byte ends the name. Any
/// other byte is the length of the label that follows it.
pub open spec fn parse_labels(s: Seq<u8>, pos: int) -> Option<(Seq<Seq<u8>>, Option<u16>, int)>
    decreases s.len() - pos,
{
    if pos < 0 || pos >= s.len() {
        None
    } else if s[pos] >= 0xc0 {
        if pos + 1 >= s.len() {
            None
        } else {
            Some(
                (
                    Seq::empty(),
                    Some(((s[pos] - 0xc0) * 256 + s[pos + 1]) as u16),
                    pos + 2,
                ),
            )
        }
    } else if s[pos] == 0 {
        Some((Seq::empty(), None, pos + 1))
    } else {
        let end = pos + 1 + s[pos];
        if end > s.len() {
            None
        } else {
            match parse_labels(s, end) {
                None => None,
                Some((ls, p, e)) => Some((seq![s.subrange(pos + 1, end)] + ls, p, e)),
            }
        }
    }
}

/// A set of 16-bit values has at most 65536 members.
pub proof fn lemma_u16_set_bound(s: Set<u16>)
    requires
        s.finite(),
    ensures
        s.len() <= 0x10000,
{
    let all = Set::<u16>::range(0, 0xffff).insert(0xffff);
    vstd::set_lib::range_set_properties::<u16>(0, 0xffff);
    assert(s.subset_of(all));
    lemma_len_subset(s, all);
}

/// The labels reached by following the pointer `ptr` through `buf`, where
/// `seen` holds the pointers already followed for this name. Following a
/// pointer a second time fails with `CircularReference`.
pub open spec fn follow(buf: Seq<u8>, ptr: u16, seen: Set<u16>) -> Result<
    Seq<Seq<u8>>,
    MessageError,
>
    decreases 0x10000 - seen.len(),
    when seen.finite()
{
    if seen.contains(ptr) {
        Err(MessageError::CircularReference(ptr))
    } else {
        match parse_labels(buf, ptr as int) {
            None => Err(MessageError::ParsingError),
            Some((ls, None, _)) => Ok(ls),
            Some((ls, Some(next), _)) => {
                proof {
                    lemma_u16_set_bound(seen.insert(ptr));
                }
                match follow(buf, next, seen.insert(ptr)) {
                    Ok(rest) => Ok(ls + rest),
                    Err(e) => Err(e),
                }
            },
        }
    }
}

/// The full label list of a name read as `labels` ended by `pointer`, with
/// every pointer resolved against the whole message `buf`.
pub open spec fn resolve(buf: Seq<u8>, labels: Seq<Seq<u8>>, pointer: Option<u16>) -> Result<
    Seq<Seq<u8>>,
    MessageError,
> {
    match pointer {
        None => Ok(labels),
        Some(p) => match follow(buf, p, Set::empty()) {
            Ok(rest) => Ok(labels + rest),
            Err(e) => Err(e),
        },
    }
}

/// The labels joined by dots.
pub open spec fn join_labels(ls: Seq<Seq<u8>>) -> Seq<u8>
    decreases ls.len(),
{
    if ls.len() == 0 {
        Seq::empty()
    } else if ls.len() == 1 {
        ls[0]
    } else {
        join_labels(ls.drop_last()) + seq![DOT] + ls.last()
    }
}

/// The text that `bytes` encode as UTF-8, or `EncodingError`.
pub open spec fn text_of(bytes: Seq<u8>) -> Result<Seq<char>, MessageError> {
    if valid_utf8(bytes) {
        Ok(decode_utf8(bytes))
    } else {
        Err(MessageError::EncodingError)
    }
}

/// The name that starts at `pos` of `local` (the message itself, or a
/// record's data), with its pointers resolved against the message `buf`, as
/// dotted text, and the position after it in `local`.
pub open spec fn name_at(buf: Seq<u8>, local: Seq<u8>, pos: int) -> Result<
    (Seq<char>, int),
    MessageError,
> {
    match parse_labels(local, pos) {
        None => Err(MessageError::ParsingError),
        Some((ls, p, end)) => match resolve(buf, ls, p) {
            Err(e) => Err(e),
            Ok(all) => match text_of(join_labels(all)) {
                Err(e) => Err(e),
                Ok(t) => Ok((t, end)),
            },
        },
    }
}

/// The pieces of `b` between dots: one more than the number of dots.
pub open spec fn split_dots(b: Seq<u8>) -> Seq<Seq<u8>>
    decreases b.len(),
{
    if b.len() == 0 {
        seq![Seq::empty()]
    } else {
        let init = split_dots(b.drop_last());
        if b.last() == DOT {
            init.push(Seq::empty())
        } else {
            init.update(init.len() - 1, init.last().push(b.last()))
        }
    }
}

/// The length byte of a label.
pub open spec fn len_byte(x: Seq<u8>) -> u8 {
    #[verifier::truncate]
    (x.len() as u8)
}

/// Each label preceded by its length byte.
pub open spec fn labels_wire(ls: Seq<Seq<u8>>) -> Seq<u8>
    decreases ls.len(),
{
    if ls.len() == 0 {
        Seq::empty()
    } else {
        seq![len_byte(ls[0])] + ls[0] + labels_wire(ls.drop_first())
    }
}

/// Whether no label is longer than 63 bytes.
pub open spec fn labels_fit(ls: Seq<Seq<u8>>) -> bool {
    forall|i: int| 0 <= i < ls.len() ==> #[trigger] ls[i].len() <= 63
}

/// The length of the first label longer than 63 bytes.
pub open spec fn first_long(ls: Seq<Seq<u8>>) -> nat
    decreases ls.len(),
{
    if ls.len() == 0 {
        0
    } else if ls[0].len() > 63 {
        ls[0].len()
    } else {
        first_long(ls.drop_first())
    }
}

/// The wire form of the dotted name `s`: each dot-separated piece of its
/// UTF-8 bytes as a label, then the zero byte. Fails with
/// `NameLengthExceeded` when a piece is longer than 63 bytes.
pub open spec fn encode_name(s: Seq<char>) -> Result<Seq<u8>, MessageError> {
    let ls = split_dots(encode_utf8(s));
    if labels_fit(ls) {
        Ok(labels_wire(ls) + seq![0u8])
    } else {
        Err(MessageError::NameLengthExceeded(first_long(ls) as usize))
    }
}

/// A name as read from the wire: its labels, and the compression pointer
/// that ends it, if any.
pub struct WireName {
    pub labels: Vec<Vec<u8>>,
    pub pointer: Option<u16>,
}

/// Reads the label sequence at `pos` of `input`, leaving pointers as they
/// are; returns it and the position after it.
pub fn read_names(input: &[u8], pos: usize) -> (r: Result<(WireName, usize), MessageError>)
    ensures
        match parse_labels(input@, pos as int) {
            None => r == Err::<(WireName, usize), MessageError>(MessageError::ParsingError),
            Some((ls, p, end)) => r matches Ok((n, e)) && seqs_of(n.labels@) == ls && n.pointer
                == p && e == end,
        },
{
    let mut labels: Vec<Vec<u8>> = Vec::new();
    let mut p = pos;
    loop
        invariant
            p >= pos,
            parse_labels(input@, pos as int) == match parse_labels(input@, p as int) {
                None => None,
                Some((ls, q, e)) => Some((seqs_of(labels@) + ls, q, e)),
            },
        decreases input@.len() - p,
    {
        if p >= input.len() {
            return Err(MessageError::ParsingError);
        }
        let b = input[p];
        if b >= 0xc0 {
            if p + 1 >= input.len() {
                return Err(MessageError::ParsingError);
            }
            let ptr: u16 = ((b - 0xc0) as u16) * 256 + input[p + 1] as u16;
            assert(seqs_of(labels@) + Seq::<Seq<u8>>::empty() =~= seqs_of(labels@));
            return Ok((WireName { labels, pointer: Some(ptr) }, p + 2));
        }
        if b == 0 {
            assert(seqs_of(labels@) + Seq::<Seq<u8>>::empty() =~= seqs_of(labels@));
            return Ok((WireName { labels, pointer: None }, p + 1));
        }
        let len = b as usize;
        if len > input.len() - (p + 1) {
            return Err(MessageError::ParsingError);
        }
        let mut label: Vec<u8> = Vec::new();
        append_bytes(&mut label, &input[p + 1..p + 1 + len]);
        let ghost old_labels = seqs_of(labels@);
        labels.push(label);
        proof {
            assert(seqs_of(labels@) =~= old_labels.push(input@.subrange(p + 1, p + 1 + len)));
            match parse_labels(input@, p + 1 + len) {
                None => {},
                Some((ls, q, e)) => {
                    assert(old_labels + (seq![input@.subrange(p + 1, p + 1 + len)] + ls)
                        =~= seqs_of(labels@) + ls);
                },
            }
        }
        p = p + 1 + len;
    }
}

/// A copy of a label list.
fn copy_labels(labels: &Vec<Vec<u8>>) -> (r: Vec<Vec<u8>>)
    ensures
        seqs_of(r@) == seqs_of(labels@),
{
    let mut out: Vec<Vec<u8>> = Vec::new();
    let mut i: usize = 0;
    while i < labels.len()
        invariant
            i <= labels@.len(),
            seqs_of(out@) == seqs_of(labels@).take(i as int),
        decreases labels@.len() - i,
    {
        let mut label: Vec<u8> = Vec::new();
        append_bytes(&mut label, labels[i].as_slice());
        let ghost before = seqs_of(out@);
        out.push(label);
        assert(seqs_of(out@) =~= before.push(labels@[i as int]@));
        assert(seqs_of(labels@).take(i + 1) =~= seqs_of(labels@).take(i as int).push(
            labels@[i as int]@,
        ));
        i = i + 1;
    }
    assert(seqs_of(labels@).take(i as int) =~= seqs_of(labels@));
    out
}

/// What is left to add to a name: nothing, or what following `ptr` gives.
pub open spec fn pending(buf: Seq<u8>, ptr: Option<u16>, seen: Set<u16>) -> Result<
    Seq<Seq<u8>>,
    MessageError,
> {
    match ptr {
        None => Ok(Seq::empty()),
        Some(p) => follow(buf, p, seen),
    }
}

/// Resolves the pointer that may end `name` against the whole message
/// `input`, following pointer after pointer; returns the full label list.
pub fn resolve_names(input: &[u8], name: &WireName) -> (r: Result<Vec<Vec<u8>>, MessageError>)
    ensures
        match resolve(input@, seqs_of(name.labels@), name.pointer) {
            Ok(ls) => r matches Ok(v) && seqs_of(v@) == ls,
            Err(e) => r == Err::<Vec<Vec<u8>>, MessageError>(e),
        },
{
    let mut out = copy_labels(&name.labels);
    let mut next = name.pointer;
    let mut seen: HashSet<u16> = HashSet::new();
    assert(seqs_of(out@) + Seq::<Seq<u8>>::empty() =~= seqs_of(out@));
    loop
        invariant
            seen@.finite(),
            resolve(input@, seqs_of(name.labels@), name.pointer) == match pending(
                input@,
                next,
                seen@,
            ) {
                Ok(rest) => Ok(seqs_of(out@) + rest),
                Err(e) => Err(e),
            },
        decreases 0x10000 - seen@.len(),
    {
        match next {
            None => {
                assert(seqs_of(out@) + Seq::<Seq<u8>>::empty() =~= seqs_of(out@));
                return Ok(out);
            },
            Some(p) => {
                if seen.contains(&p) {
                    return Err(MessageError::CircularReference(p));
                }
                let ghost old_seen = seen@;
                let ghost old_out = seqs_of(out@);
                seen.insert(p);
                proof {
                    lemma_u16_set_bound(seen@);
                }
                let (part, _) = read_names(input, p as usize)?;
                let WireName { labels: mut more, pointer: after } = part;
                let ghost more_seq = seqs_of(more@);
                out.append(&mut more);
                proof {
                    assert(seqs_of(out@) =~= old_out + more_seq);
                    match pending(input@, after, seen@) {
                        Ok(rest) => {
                            assert(old_out + (more_seq + rest) =~= seqs_of(out@) + rest);
                        },
                        Err(e) => {},
                    }
                }
                next = after;
            },
        }
    }
}

/// Joins the labels with dots and reads the result as UTF-8 text.
pub fn flatten_to_string(labels: &Vec<Vec<u8>>) -> (r: Result<String, MessageError>)
    ensures
        match text_of(join_labels(seqs_of(labels@))) {
            Ok(t) => r matches Ok(s) && s@ == t,
            Err(e) => r == Err::<String, MessageError>(e),
        },
{
    let mut bytes: Vec<u8> = Vec::new();
    let mut i: usize = 0;
    while i < labels.len()
        invariant
            i <= labels@.len(),
            bytes@ == join_labels(seqs_of(labels@).take(i as int)),
        decreases labels@.len() - i,
    {
        let ghost before = seqs_of(labels@).take(i as int);
        if i > 0 {
            bytes.push(DOT);
        }
        append_bytes(&mut bytes, labels[i].as_slice());
        proof {
            let after = seqs_of(labels@).take(i + 1);
            assert(after.drop_last() =~= before);
            if i == 0 {
                assert(bytes@ =~= join_labels(after));
            } else {
                assert(bytes@ =~= join_labels(after));
            }
        }
        i = i + 1;
    }
    assert(seqs_of(labels@).take(i as int) =~= seqs_of(labels@));
    match utf8_string(bytes.as_slice()) {
        Some(s) => Ok(s),
        None => Err(MessageError::EncodingError),
    }
}

} // verus!

verus! {

/// Splits `b` at its dots.
fn split_labels(b: &[u8]) -> (r: Vec<Vec<u8>>)
    ensures
        seqs_of(r@) == split_dots(b@),
{
    let mut done: Vec<Vec<u8>> = Vec::new();
    let mut cur: Vec<u8> = Vec::new();
    let mut i: usize = 0;
    assert(b@.take(0) =~= Seq::<u8>::empty());
    assert(seqs_of(done@).push(cur@) =~= split_dots(b@.take(0)));
    while i < b.len()
        invariant
            i <= b@.len(),
            seqs_of(done@).push(cur@) == split_dots(b@.take(i as int)),
        decreases b@.len() - i,
    {
        let ghost prev = b@.take(i as int);
        assert(b@.take(i + 1).drop_last() =~= prev);
        let ghost old_done = seqs_of(done@);
        let ghost old_cur = cur@;
        if b[i] == DOT {
            done.push(cur);
            cur = Vec::new();
            assert(seqs_of(done@) =~= old_done.push(old_cur));
            assert(seqs_of(done@).push(cur@) =~= split_dots(b@.take(i + 1)));
        } else {
            cur.push(b[i]);
            assert(seqs_of(done@).push(cur@) =~= split_dots(b@.take(i + 1)));
        }
        i = i + 1;
    }
    assert(b@.take(i as int) =~= b@);
    let ghost before = seqs_of(done@);
    done.push(cur);
    assert(seqs_of(done@) =~= before.push(cur@));
    done
}

/// Appending a label to a list adds its length byte and bytes at the end.
pub proof fn lemma_labels_wire_push(ls: Seq<Seq<u8>>, x: Seq<u8>)
    ensures
        labels_wire(ls.push(x)) == labels_wire(ls) + seq![len_byte(x)] + x,
    decreases ls.len(),
{
    let l2 = ls.push(x);
    if ls.len() == 0 {
        assert(l2.drop_first() =~= Seq::<Seq<u8>>::empty());
        assert(l2[0] == x);
        assert(labels_wire(l2.drop_first()) == Seq::<u8>::empty());
        assert(labels_wire(l2) == seq![len_byte(x)] + x + Seq::<u8>::empty());
        assert(labels_wire(ls) == Seq::<u8>::empty());
        assert(labels_wire(l2) =~= labels_wire(ls) + seq![len_byte(x)] + x);
    } else {
        assert(ls.push(x).drop_first() =~= ls.drop_first().push(x));
        lemma_labels_wire_push(ls.drop_first(), x);
        assert(labels_wire(ls.push(x)) =~= labels_wire(ls) + seq![len_byte(x)] + x);
    }
}

/// Writes the dotted name `s` as length-prefixed labels and a zero byte,
/// never with compression; returns the number of bytes written. Fails,
/// writing nothing, with `NameLengthExceeded` when a dot-separated piece is
/// longer than 63 bytes.
pub fn encode_str(s: &str, buf: &mut Vec<u8>) -> (r: Result<usize, MessageError>)
    ensures
        match encode_name(s@) {
            Ok(w) => r == Ok::<usize, MessageError>(w.len() as usize) && final(buf)@ == old(
                buf,
            )@ + w,
            Err(e) => r == Err::<usize, MessageError>(e) && final(buf)@ == old(buf)@,
        },
{
    let segs = split_labels(s.as_bytes());
    let ghost ls = split_dots(encode_utf8(s@));
    let mut k: usize = 0;
    assert(ls.subrange(0, ls.len() as int) =~= ls);
    while k < segs.len()
        invariant
            k <= segs@.len(),
            seqs_of(segs@) == ls,
            ls == split_dots(encode_utf8(s@)),
            forall|j: int| 0 <= j < k ==> #[trigger] ls[j].len() <= 63,
            first_long(ls) == first_long(ls.subrange(k as int, ls.len() as int)),
        decreases segs@.len() - k,
    {
        let n = segs[k].len();
        assert(ls.subrange(k as int, ls.len() as int)[0] == ls[k as int]);
        assert(ls[k as int] == segs@[k as int]@);
        if n > 63 {
            assert(!labels_fit(ls));
            let ghost sub = ls.subrange(k as int, ls.len() as int);
            assert(sub.len() > 0);
            assert(first_long(sub) == sub[0].len());
            assert(first_long(ls) == n);
            assert(encode_name(s@) == Err::<Seq<u8>, MessageError>(
                MessageError::NameLengthExceeded(n),
            ));
            return Err(MessageError::NameLengthExceeded(n));
        }
        assert(ls.subrange(k as int, ls.len() as int).drop_first() =~= ls.subrange(
            k + 1,
            ls.len() as int,
        ));
        k = k + 1;
    }
    let mut out: Vec<u8> = Vec::new();
    let mut i: usize = 0;
    assert(ls.take(0) =~= Seq::<Seq<u8>>::empty());
    while i < segs.len()
        invariant
            i <= segs@.len(),
            seqs_of(segs@) == ls,
            ls == split_dots(encode_utf8(s@)),
            labels_fit(ls),
            out@ == labels_wire(ls.take(i as int)),
        decreases segs@.len() - i,
    {
        let n = segs[i].len();
        assert(ls[i as int] == segs@[i as int]@);
        assert(ls[i as int].len() <= 63);
        out.push(n as u8);
        append_bytes(&mut out, segs[i].as_slice());
        proof {
            assert(ls.take(i + 1) =~= ls.take(i as int).push(ls[i as int]));
            lemma_labels_wire_push(ls.take(i as int), ls[i as int]);
        }
        i = i + 1;
    }
    out.push(0);
    assert(ls.take(i as int) =~= ls);
    let n = out.len();
    let mut out_mut = out;
    buf.append(&mut out_mut);
    Ok(n)
}

} // verus!

verus! {

/// The pointer that ends the label sequence at offset `p`, if it reads and
/// ends with one.
pub open spec fn next_pointer(buf: Seq<u8>, p: u16) -> Option<u16> {
    match parse_labels(buf, p as int) {
        Some((_, Some(q), _)) => Some(q),
        _ => None,
    }
}

/// The offset reached from `p` by following `k` compression pointers.
pub open spec fn pointer_after(buf: Seq<u8>, p: u16, k: nat) -> Option<u16>
    decreases k,
{
    if k == 0 {
        Some(p)
    } else {
        match next_pointer(buf, p) {
            None => None,
            Some(q) => pointer_after(buf, q, (k - 1) as nat),
        }
    }
}

proof fn lemma_follow_to_seen(buf: Seq<u8>, x: u16, seen: Set<u16>, j: nat)
    requires
        seen.finite(),
        pointer_after(buf, x, j) matches Some(y) && seen.contains(y),
    ensures
        follow(buf, x, seen) matches Err(MessageError::CircularReference(_)),
    decreases j,
{
    if !seen.contains(x) {
        let q = next_pointer(buf, x)->Some_0;
        lemma_u16_set_bound(seen.insert(x));
        lemma_follow_to_seen(buf, q, seen.insert(x), (j - 1) as nat);
    }
}

/// Cycle rejection: when following compression pointers from offset `p`
/// leads back to `p`, resolving any name that ends with a pointer to `p`
/// fails with `CircularReference` (and, like every resolution, ends).
pub proof fn lemma_cycle_rejected(buf: Seq<u8>, labels: Seq<Seq<u8>>, p: u16, k: nat)
    requires
        k > 0,
        pointer_after(buf, p, k) == Some(p),
    ensures
        resolve(buf, labels, Some(p)) matches Err(MessageError::CircularReference(_)),
{
    let q = next_pointer(buf, p)->Some_0;
    lemma_u16_set_bound(Set::<u16>::empty().insert(p));
    lemma_follow_to_seen(buf, q, Set::<u16>::empty().insert(p), (k - 1) as nat);
}

/// Whether every label is non-empty and short enough that its length byte
/// cannot be taken for a pointer.
pub open spec fn labels_ok(ls: Seq<Seq<u8>>) -> bool {
    forall|i: int| 0 <= i < ls.len() ==> 0 < #[trigger] ls[i].len() < 0xc0
}

/// The labels that a label sequence holds are non-empty and shorter than
/// 192 bytes.
pub proof fn lemma_parsed_labels_ok(s: Seq<u8>, pos: int)
    requires
        parse_labels(s, pos) is Some,
    ensures
        labels_ok(parse_labels(s, pos)->Some_0.0),
    decreases s.len() - pos,
{
    if 0 <= pos < s.len() && s[pos] < 0xc0 && s[pos] != 0 {
        let end = pos + 1 + s[pos];
        lemma_parsed_labels_ok(s, end);
        let ls = parse_labels(s, end)->Some_0.0;
        let all = parse_labels(s, pos)->Some_0.0;
        assert(all == seq![s.subrange(pos + 1, end)] + ls);
        assert forall|i: int| 0 <= i < all.len() implies 0 < #[trigger] all[i].len() < 0xc0 by {
            if i > 0 {
                assert(all[i] == ls[i - 1]);
            }
        }
    }
}

/// The labels that following a pointer gathers are non-empty and shorter
/// than 192 bytes.
pub proof fn lemma_followed_labels_ok(buf: Seq<u8>, ptr: u16, seen: Set<u16>)
    requires
        seen.finite(),
        follow(buf, ptr, seen) is Ok,
    ensures
        labels_ok(follow(buf, ptr, seen)->Ok_0),
    decreases 0x10000 - seen.len(),
{
    if !seen.contains(ptr) {
        lemma_parsed_labels_ok(buf, ptr as int);
        let (ls, next, _) = parse_labels(buf, ptr as int)->Some_0;
        if let Some(n) = next {
            lemma_u16_set_bound(seen.insert(ptr));
            lemma_followed_labels_ok(buf, n, seen.insert(ptr));
            let rest = follow(buf, n, seen.insert(ptr))->Ok_0;
            let all = ls + rest;
            assert forall|i: int| 0 <= i < all.len() implies 0 < #[trigger] all[i].len() < 0xc0 by {
                if i >= ls.len() {
                    assert(all[i] == rest[i - ls.len()]);
                }
            }
        }
    }
}

/// Labels written out in full, then the zero byte, read back as themselves.
pub proof fn lemma_parse_wire(s: Seq<u8>, pos: int, ls: Seq<Seq<u8>>)
    requires
        labels_ok(ls),
        0 <= pos,
        pos + labels_wire(ls).len() + 1 <= s.len(),
        s.subrange(pos, pos + labels_wire(ls).len() + 1) == labels_wire(ls) + seq![0u8],
    ensures
        parse_labels(s, pos) == Some((ls, None::<u16>, pos + labels_wire(ls).len() + 1)),
    decreases ls.len(),
{
    let w = labels_wire(ls) + seq![0u8];
    assert(s[pos] == w[0]);
    if ls.len() == 0 {
        assert(labels_wire(ls) =~= Seq::<u8>::empty());
    } else {
        let first = ls[0];
        let rest = ls.drop_first();
        assert(labels_ok(rest)) by {
            assert forall|i: int| 0 <= i < rest.len() implies 0 < #[trigger] rest[i].len() < 0xc0 by {
                assert(rest[i] == ls[i + 1]);
            }
        }
        assert(0 < first.len() < 0xc0);
        assert(len_byte(first) == first.len());
        let rw = labels_wire(rest);
        assert(labels_wire(ls) == seq![len_byte(first)] + first + rw);
        let end = pos + 1 + first.len();
        assert(s[pos] == first.len());
        assert(s.subrange(pos + 1, end) =~= first) by {
            assert forall|i: int| 0 <= i < first.len() implies s.subrange(pos + 1, end)[i]
                == first[i] by {
                assert(s[pos + 1 + i] == w[1 + i]);
            }
        }
        assert(s.subrange(end, end + rw.len() + 1) =~= rw + seq![0u8]) by {
            assert forall|i: int| 0 <= i < rw.len() + 1 implies s.subrange(end, end + rw.len() + 1)[i]
                == (rw + seq![0u8])[i] by {
                assert(s[end + i] == w[1 + first.len() + i]);
            }
        }
        lemma_parse_wire(s, end, rest);
        assert(seq![first] + rest =~= ls);
    }
}

/// Compression is transparent: a name read through compression pointers
/// has the same text as its labels written out in full with no pointer,
/// wherever that form stands.
pub proof fn lemma_compression_transparent(buf: Seq<u8>, local: Seq<u8>, pos: int, other: Seq<u8>)
    requires
        name_at(buf, local, pos) is Ok,
    ensures
        ({
            let (ls, p, _) = parse_labels(local, pos)->Some_0;
            let full = labels_wire(resolve(buf, ls, p)->Ok_0) + seq![0u8];
            name_at(other, full, 0) == Ok::<(Seq<char>, int), MessageError>(
                (name_at(buf, local, pos)->Ok_0.0, full.len() as int),
            )
        }),
{
    let (ls, p, _) = parse_labels(local, pos)->Some_0;
    let all = resolve(buf, ls, p)->Ok_0;
    let full = labels_wire(all) + seq![0u8];
    lemma_parsed_labels_ok(local, pos);
    if let Some(q) = p {
        lemma_followed_labels_ok(buf, q, Set::empty());
        let rest = follow(buf, q, Set::empty())->Ok_0;
        assert forall|i: int| 0 <= i < all.len() implies 0 < #[trigger] all[i].len() < 0xc0 by {
            if i >= ls.len() {
                assert(all[i] == rest[i - ls.len()]);
            } else {
                assert(all[i] == ls[i]);
            }
        }
    }
    assert(full.subrange(0, full.len() as int) =~= full);
    lemma_parse_wire(full, 0, all);
}

} // verus!
