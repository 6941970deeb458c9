//! Writing bencoded integers and byte strings.
use vstd::prelude::*;
use crate::be::push_range;

verus! {

/// The ASCII decimal digits of `n`, most significant first, without leading zeros.
pub open spec fn decimal(n: nat) -> Seq<u8>
    decreases n,
{
    if n < 10 {
        seq![(48 + n) as u8]
    } else {
        decimal(n / 10).push((48 + n % 10) as u8)
    }
}

/// A bencoded integer: `i<decimal>e`.
pub open spec fn bencode_int(n: nat) -> Seq<u8> {
    seq![105u8] + decimal(n) + seq![101u8]
}

/// A bencoded byte string: `<length>:<bytes>`.
pub open spec fn bencode_bytes(s: Seq<u8>) -> Seq<u8> {
    decimal(s.len()) + seq![58u8] + s
}

/// Appends the decimal digits of `n`.
pub fn push_decimal(buf: &mut Vec<u8>, n: usize)
    ensures
        final(buf)@ == old(buf)@ + decimal(n as nat),
    decreases n,
{
    if n < 10 {
        buf.push((48 + n) as u8);
    } else {
        push_decimal(buf, n / 10);
        buf.push((48 + n % 10) as u8);
    }
    assert(final(buf)@ =~= old(buf)@ + decimal(n as nat));
}

/// Appends `n` bencoded.
pub fn push_int(buf: &mut Vec<u8>, n: usize)
    ensures
        final(buf)@ == old(buf)@ + bencode_int(n as nat),
{
    buf.push(105);
    push_decimal(buf, n);
    buf.push(101);
    assert(final(buf)@ =~= old(buf)@ + bencode_int(n as nat));
}

/// Appends `s` bencoded.
pub fn push_bytes(buf: &mut Vec<u8>, s: &[u8])
    ensures
        final(buf)@ == old(buf)@ + bencode_bytes(s@),
{
    push_decimal(buf, s.len());
    buf.push(58);
    push_range(buf, s, 0, s.len());
    assert(s@.subrange(0, s@.len() as int) =~= s@);
    assert(final(buf)@ =~= old(buf)@ + bencode_bytes(s@));
}


/// A decoded bencode value.
#[derive(Debug)]
pub enum BencodeValue {
    Int(i64),
    Bytes(Vec<u8>),
    List(Vec<BencodeValue>),
    /// Entries in the order in which they were read.
    Dict(Vec<(Vec<u8>, BencodeValue)>),
}

/// A bencode value as mathematics sees it.
pub enum BValue {
    Int(int),
    Bytes(Seq<u8>),
    List(Seq<BValue>),
    Dict(Seq<(Seq<u8>, BValue)>),
}

impl BencodeValue {
    pub open spec fn model(&self) -> BValue
        decreases self,
    {
        match self {
            BencodeValue::Int(i) => BValue::Int(*i as int),
            BencodeValue::Bytes(b) => BValue::Bytes(b@),
            BencodeValue::List(v) => BValue::List(
                Seq::new(
                    v@.len(),
                    |i: int|
                        if 0 <= i < v@.len() {
                            v@[i].model()
                        } else {
                            BValue::Int(0)
                        },
                ),
            ),
            BencodeValue::Dict(v) => BValue::Dict(
                Seq::new(
                    v@.len(),
                    |i: int|
                        if 0 <= i < v@.len() {
                            (v@[i].0@, v@[i].1.model())
                        } else {
                            (Seq::empty(), BValue::Int(0))
                        },
                ),
            ),
        }
    }
}

/// The models of a list of values.
pub open spec fn models(v: Seq<BencodeValue>) -> Seq<BValue> {
    Seq::new(v.len(), |i: int| v[i].model())
}

/// The models of a list of dictionary entries.
pub open spec fn entry_models(v: Seq<(Vec<u8>, BencodeValue)>) -> Seq<(Seq<u8>, BValue)> {
    Seq::new(v.len(), |i: int| (v[i].0@, v[i].1.model()))
}

pub open spec fn is_digit(b: u8) -> bool {
    48 <= b <= 57
}

/// One or more ASCII digits.
pub open spec fn is_digits(t: Seq<u8>) -> bool {
    t.len() > 0 && forall|i: int| 0 <= i < t.len() ==> is_digit(#[trigger] t[i])
}

/// The number that ASCII digits spell.
pub open spec fn digits_value(t: Seq<u8>) -> nat
    decreases t.len(),
{
    if t.len() == 0 {
        0
    } else {
        digits_value(t.drop_last()) * 10 + (t.last() - 48) as nat
    }
}

/// An unsigned number as Rust's `str::parse` reads it: an optional `+`, then digits, at most
/// `limit`.
pub open spec fn parse_uint_text(t: Seq<u8>, limit: nat) -> Option<nat> {
    let d = if t.len() > 0 && t[0] == 43 { t.skip(1) } else { t };
    if is_digits(d) && digits_value(d) <= limit {
        Some(digits_value(d))
    } else {
        None
    }
}

/// A signed 64-bit number as Rust's `str::parse` reads it: an optional `+` or `-`, then digits.
pub open spec fn parse_int_text(t: Seq<u8>) -> Option<int> {
    if t.len() > 0 && t[0] == 45 {
        let d = t.skip(1);
        if is_digits(d) && digits_value(d) <= 0x8000_0000_0000_0000 {
            Some(-digits_value(d))
        } else {
            None
        }
    } else {
        match parse_uint_text(t, 0x7fff_ffff_ffff_ffff) {
            Some(v) => Some(v as int),
            None => None,
        }
    }
}

/// The first index at or after `from` that holds byte `b`.
pub open spec fn find(s: Seq<u8>, from: nat, b: u8) -> Option<nat>
    decreases s.len() - from,
{
    if from >= s.len() {
        None
    } else if s[from as int] == b {
        Some(from)
    } else {
        find(s, from + 1, b)
    }
}

/// A byte string `<length>:<bytes>` at `pos`: its bytes and the position after it.
pub open spec fn parse_str_spec(s: Seq<u8>, pos: nat) -> Option<(Seq<u8>, nat)> {
    match find(s, pos, 58) {
        Some(c) => match parse_uint_text(s.subrange(pos as int, c as int), usize::MAX as nat) {
            Some(n) => if c + 1 + n <= s.len() {
                Some((s.subrange(c + 1 as int, (c + 1 + n) as int), c + 1 + n))
            } else {
                None
            },
            None => None,
        },
        None => None,
    }
}

/// An integer `i<number>e` at `pos`: its value and the position after it.
pub open spec fn parse_int_spec(s: Seq<u8>, pos: nat) -> Option<(int, nat)> {
    if pos < s.len() && s[pos as int] == 105 {
        match find(s, pos + 1, 101) {
            Some(e) => match parse_int_text(s.subrange(pos + 1 as int, e as int)) {
                Some(v) => Some((v, e + 1)),
                None => None,
            },
            None => None,
        }
    } else {
        None
    }
}

/// The value that starts at `pos`, and the position after it.
pub open spec fn parse_value_spec(s: Seq<u8>, pos: nat) -> Option<(BValue, nat)>
    decreases s.len() - pos, 1nat,
{
    if pos >= s.len() {
        None
    } else if s[pos as int] == 105 {
        match parse_int_spec(s, pos) {
            Some((v, e)) => Some((BValue::Int(v), e)),
            None => None,
        }
    } else if is_digit(s[pos as int]) {
        match parse_str_spec(s, pos) {
            Some((b, e)) => Some((BValue::Bytes(b), e)),
            None => None,
        }
    } else if s[pos as int] == 108 {
        parse_list_spec(s, pos + 1, Seq::empty())
    } else if s[pos as int] == 100 {
        parse_dict_spec(s, pos + 1, Seq::empty())
    } else {
        None
    }
}

/// The rest of a list from `pos`, after the items `acc`: items until `e`.
pub open spec fn parse_list_spec(s: Seq<u8>, pos: nat, acc: Seq<BValue>) -> Option<(BValue, nat)>
    decreases s.len() - pos, 2nat,
{
    if pos >= s.len() {
        None
    } else if s[pos as int] == 101 {
        Some((BValue::List(acc), pos + 1))
    } else {
        match parse_value_spec(s, pos) {
            Some((v, e)) => if pos < e <= s.len() {
                parse_list_spec(s, e, acc.push(v))
            } else {
                None
            },
            None => None,
        }
    }
}

/// The rest of a dictionary from `pos`, after the entries `acc`: a byte-string key and a value,
/// until `e`.
pub open spec fn parse_dict_spec(s: Seq<u8>, pos: nat, acc: Seq<(Seq<u8>, BValue)>) -> Option<
    (BValue, nat),
>
    decreases s.len() - pos, 2nat,
{
    if pos >= s.len() {
        None
    } else if s[pos as int] == 101 {
        Some((BValue::Dict(acc), pos + 1))
    } else {
        match parse_str_spec(s, pos) {
            Some((k, after_key)) => if after_key > pos {
                match parse_value_spec(s, after_key) {
                    Some((v, e)) => if after_key < e <= s.len() {
                        parse_dict_spec(s, e, acc.push((k, v)))
                    } else {
                        None
                    },
                    None => None,
                }
            } else {
                None
            },
            None => None,
        }
    }
}


/// An exec result stands for a spec result: same value, same end position.
pub open spec fn same_result(r: (BencodeValue, usize), m: (BValue, nat)) -> bool {
    r.0.model() == m.0 && r.1 == m.1
}

proof fn lemma_digits_prefix_le(t: Seq<u8>, k: int)
    requires
        0 <= k <= t.len(),
        forall|i: int| 0 <= i < t.len() ==> is_digit(#[trigger] t[i]),
    ensures
        digits_value(t.take(k)) <= digits_value(t),
    decreases t.len(),
{
    if k < t.len() {
        let d = t.drop_last();
        assert(forall|i: int| 0 <= i < d.len() ==> d[i] == t[i]);
        lemma_digits_prefix_le(d, k);
        assert(d.take(k) =~= t.take(k));
    } else {
        assert(t.take(k) =~= t);
    }
}

proof fn lemma_find_bounds(s: Seq<u8>, from: nat, b: u8)
    ensures
        find(s, from, b) matches Some(i) ==> from <= i < s.len() && s[i as int] == b,
    decreases s.len() - from,
{
    if from < s.len() && s[from as int] != b {
        lemma_find_bounds(s, from + 1, b);
    }
}

/// The first index at or after `from` that holds `b`.
fn find_byte(s: &[u8], from: usize, b: u8) -> (r: Option<usize>)
    ensures
        match find(s@, from as nat, b) {
            Some(i) => r == Some(i as usize) && i == r->Some_0,
            None => r is None,
        },
        r is Some ==> from <= r->Some_0 < s@.len(),
{
    proof {
        lemma_find_bounds(s@, from as nat, b);
    }
    let mut i: usize = from;
    if i >= s.len() {
        return None;
    }
    while i < s.len()
        invariant
            from <= i,
            find(s@, from as nat, b) == find(s@, i as nat, b),
        decreases s@.len() - i,
    {
        if s[i] == b {
            return Some(i);
        }
        i = i + 1;
    }
    None
}

/// The value of the digits `s[from..to]`, if they are one or more digits worth at most `limit`.
fn parse_digits(s: &[u8], from: usize, to: usize, limit: u64) -> (r: Option<u64>)
    requires
        from <= to <= s@.len(),
    ensures
        ({
            let t = s@.subrange(from as int, to as int);
            if is_digits(t) && digits_value(t) <= limit {
                r == Some(digits_value(t) as u64)
            } else {
                r is None
            }
        }),
{
    let ghost t = s@.subrange(from as int, to as int);
    if from == to {
        return None;
    }
    let mut acc: u64 = 0;
    let mut i: usize = from;
    while i < to
        invariant
            from <= i <= to <= s@.len(),
            t == s@.subrange(from as int, to as int),
            forall|k: int| from <= k < i ==> is_digit(#[trigger] s@[k]),
            acc == digits_value(s@.subrange(from as int, i as int)),
            acc <= limit,
        decreases to - i,
    {
        let c = s[i];
        if c < 48 || c > 57 {
            assert(!is_digit(t[i - from]));
            return None;
        }
        let next: u128 = acc as u128 * 10 + (c - 48) as u128;
        proof {
            let p = s@.subrange(from as int, i + 1);
            assert(p.drop_last() =~= s@.subrange(from as int, i as int));
            assert(digits_value(p) == next);
            if next > limit {
                if forall|k: int| 0 <= k < t.len() ==> is_digit(#[trigger] t[k]) {
                    lemma_digits_prefix_le(t, i + 1 - from);
                    assert(t.take(i + 1 - from) =~= p);
                }
            }
        }
        if next > limit as u128 {
            return None;
        }
        acc = next as u64;
        i = i + 1;
    }
    assert(s@.subrange(from as int, i as int) =~= t);
    Some(acc)
}

/// `parse_uint_text` of `s[from..to]`.
fn parse_uint(s: &[u8], from: usize, to: usize, limit: u64) -> (r: Option<u64>)
    requires
        from <= to <= s@.len(),
    ensures
        match parse_uint_text(s@.subrange(from as int, to as int), limit as nat) {
            Some(v) => r == Some(v as u64),
            None => r is None,
        },
{
    if from < to && s[from] == 43 {
        assert(s@.subrange(from as int, to as int).skip(1) =~= s@.subrange(from + 1, to as int));
        parse_digits(s, from + 1, to, limit)
    } else {
        parse_digits(s, from, to, limit)
    }
}

/// `parse_int_text` of `s[from..to]`.
fn parse_i64(s: &[u8], from: usize, to: usize) -> (r: Option<i64>)
    requires
        from <= to <= s@.len(),
    ensures
        match parse_int_text(s@.subrange(from as int, to as int)) {
            Some(v) => r == Some(v as i64) && i64::MIN <= v <= i64::MAX,
            None => r is None,
        },
{
    if from < to && s[from] == 45 {
        assert(s@.subrange(from as int, to as int).skip(1) =~= s@.subrange(from + 1, to as int));
        match parse_digits(s, from + 1, to, 0x8000_0000_0000_0000) {
            Some(m) => if m == 0 {
                Some(0)
            } else {
                Some(-((m - 1) as i64) - 1)
            },
            None => None,
        }
    } else {
        match parse_uint(s, from, to, 0x7fff_ffff_ffff_ffff) {
            Some(v) => Some(v as i64),
            None => None,
        }
    }
}

/// The byte string at `pos`.
fn parse_str_at(s: &[u8], pos: usize) -> (r: Option<(Vec<u8>, usize)>)
    ensures
        match parse_str_spec(s@, pos as nat) {
            Some((b, e)) => r is Some && r->Some_0.0@ == b && r->Some_0.1 == e,
            None => r is None,
        },
        r is Some ==> pos < r->Some_0.1 <= s@.len(),
{
    let c = match find_byte(s, pos, 58) {
        Some(c) => c,
        None => return None,
    };
    assert((usize::MAX as u64) as nat == usize::MAX as nat);
    let n = match parse_uint(s, pos, c, usize::MAX as u64) {
        Some(n) => n as usize,
        None => return None,
    };
    if n > s.len() - c - 1 {
        return None;
    }
    let mut b: Vec<u8> = Vec::new();
    push_range(&mut b, s, c + 1, c + 1 + n);
    assert(b@ =~= s@.subrange(c + 1 as int, (c + 1 + n) as int));
    Some((b, c + 1 + n))
}

/// The integer at `pos`.
fn parse_int_at(s: &[u8], pos: usize) -> (r: Option<(i64, usize)>)
    ensures
        match parse_int_spec(s@, pos as nat) {
            Some((v, e)) => r is Some && r->Some_0.0 as int == v && r->Some_0.1 == e,
            None => r is None,
        },
        r is Some ==> pos < r->Some_0.1 <= s@.len(),
{
    if pos >= s.len() || s[pos] != 105 {
        return None;
    }
    let e = match find_byte(s, pos + 1, 101) {
        Some(e) => e,
        None => return None,
    };
    let r = parse_i64(s, pos + 1, e);
    assert(find(s@, (pos + 1) as nat, 101) == Some(e as nat));
    match r {
        Some(v) => {
            assert(parse_int_text(s@.subrange(pos + 1 as int, e as int)) == Some(v as int));
            Some((v, e + 1))
        },
        None => None,
    }
}


/// The value that starts at `pos`, and the position after it.
fn parse_value_at(s: &[u8], pos: usize) -> (r: Option<(BencodeValue, usize)>)
    ensures
        r is Some <==> parse_value_spec(s@, pos as nat) is Some,
        r is Some ==> same_result(r->Some_0, parse_value_spec(s@, pos as nat)->Some_0),
        r is Some ==> pos < r->Some_0.1 <= s@.len(),
    decreases s@.len() - pos, 1nat,
{
    if pos >= s.len() {
        return None;
    }
    let c = s[pos];
    if c == 105 {
        match parse_int_at(s, pos) {
            Some((v, e)) => Some((BencodeValue::Int(v), e)),
            None => None,
        }
    } else if 48 <= c && c <= 57 {
        match parse_str_at(s, pos) {
            Some((b, e)) => Some((BencodeValue::Bytes(b), e)),
            None => None,
        }
    } else if c == 108 {
        parse_list_at(s, pos + 1)
    } else if c == 100 {
        parse_dict_at(s, pos + 1)
    } else {
        None
    }
}

/// A list whose items start at `start`, up to its `e`.
fn parse_list_at(s: &[u8], start: usize) -> (r: Option<(BencodeValue, usize)>)
    requires
        start <= s@.len(),
    ensures
        r is Some <==> parse_list_spec(s@, start as nat, Seq::empty()) is Some,
        r is Some ==> same_result(r->Some_0, parse_list_spec(s@, start as nat, Seq::empty())->Some_0),
        r is Some ==> start < r->Some_0.1 <= s@.len(),
    decreases s@.len() - start, 2nat,
{
    let mut items: Vec<BencodeValue> = Vec::new();
    let mut pos: usize = start;
    assert(models(items@) =~= Seq::<BValue>::empty());
    while pos < s.len() && s[pos] != 101
        invariant
            start <= pos <= s@.len(),
            parse_list_spec(s@, pos as nat, models(items@)) == parse_list_spec(
                s@,
                start as nat,
                Seq::empty(),
            ),
        decreases s@.len() - pos,
    {
        match parse_value_at(s, pos) {
            Some((v, e)) => {
                let ghost vm = v.model();
                let ghost before = items@;
                items.push(v);
                assert(models(items@) =~= models(before).push(vm));
                pos = e;
            },
            None => return None,
        }
    }
    if pos >= s.len() {
        return None;
    }
    let ghost v = items@;
    let r = BencodeValue::List(items);
    proof {
        assert(r.model() is List);
        assert(r.model()->List_0 =~= models(v));
    }
    Some((r, pos + 1))
}

/// A dictionary whose entries start at `start`, up to its `e`.
fn parse_dict_at(s: &[u8], start: usize) -> (r: Option<(BencodeValue, usize)>)
    requires
        start <= s@.len(),
    ensures
        r is Some <==> parse_dict_spec(s@, start as nat, Seq::empty()) is Some,
        r is Some ==> same_result(r->Some_0, parse_dict_spec(s@, start as nat, Seq::empty())->Some_0),
        r is Some ==> start < r->Some_0.1 <= s@.len(),
    decreases s@.len() - start, 2nat,
{
    let mut entries: Vec<(Vec<u8>, BencodeValue)> = Vec::new();
    let mut pos: usize = start;
    assert(entry_models(entries@) =~= Seq::<(Seq<u8>, BValue)>::empty());
    while pos < s.len() && s[pos] != 101
        invariant
            start <= pos <= s@.len(),
            parse_dict_spec(s@, pos as nat, entry_models(entries@)) == parse_dict_spec(
                s@,
                start as nat,
                Seq::empty(),
            ),
        decreases s@.len() - pos,
    {
        let (k, after_key) = match parse_str_at(s, pos) {
            Some(x) => x,
            None => return None,
        };
        match parse_value_at(s, after_key) {
            Some((v, e)) => {
                let ghost km = k@;
                let ghost vm = v.model();
                let ghost before = entries@;
                entries.push((k, v));
                assert(entry_models(entries@) =~= entry_models(before).push((km, vm)));
                pos = e;
            },
            None => return None,
        }
    }
    if pos >= s.len() {
        return None;
    }
    let ghost v = entries@;
    let r = BencodeValue::Dict(entries);
    proof {
        assert(r.model() is Dict);
        assert(r.model()->Dict_0 =~= entry_models(v));
    }
    Some((r, pos + 1))
}

/// A parse result: the value's model and the input that follows it.
pub open spec fn parsed(r: (BencodeValue, &[u8]), input: Seq<u8>, m: (BValue, nat)) -> bool {
    r.0.model() == m.0 && r.1@ == input.skip(m.1 as int)
}

/// A byte string `<length>:<bytes>` at the start of `input`, and the input after it.
pub fn parse_bencoded_string(input: &[u8]) -> (r: Option<(BencodeValue, &[u8])>)
    ensures
        match parse_str_spec(input@, 0) {
            Some((b, e)) => r is Some && parsed(r->Some_0, input@, (BValue::Bytes(b), e)),
            None => r is None,
        },
{
    match parse_str_at(input, 0) {
        Some((b, e)) => Some((BencodeValue::Bytes(b), &input[e..input.len()])),
        None => None,
    }
}

/// An integer `i<number>e` at the start of `input`, and the input after it.
pub fn parse_bencoded_i64(input: &[u8]) -> (r: Option<(BencodeValue, &[u8])>)
    ensures
        match parse_int_spec(input@, 0) {
            Some((v, e)) => r is Some && parsed(r->Some_0, input@, (BValue::Int(v), e)),
            None => r is None,
        },
{
    match parse_int_at(input, 0) {
        Some((v, e)) => Some((BencodeValue::Int(v), &input[e..input.len()])),
        None => None,
    }
}

/// Any bencoded value at the start of `input`, and the input after it.
pub fn parse_bencoded_value(input: &[u8]) -> (r: Option<(BencodeValue, &[u8])>)
    ensures
        r is Some <==> parse_value_spec(input@, 0) is Some,
        r is Some ==> parsed(r->Some_0, input@, parse_value_spec(input@, 0)->Some_0),
{
    match parse_value_at(input, 0) {
        Some((v, e)) => Some((v, &input[e..input.len()])),
        None => None,
    }
}

/// The value that `encoded` starts with; what follows it is ignored.
pub fn decode_bencoded_value(encoded: &[u8]) -> (r: Option<BencodeValue>)
    ensures
        r is Some <==> parse_value_spec(encoded@, 0) is Some,
        r is Some ==> r->Some_0.model() == parse_value_spec(encoded@, 0)->Some_0.0,
{
    match parse_value_at(encoded, 0) {
        Some((v, _)) => Some(v),
        None => None,
    }
}

} // verus!
