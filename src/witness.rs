//! Witness marshaling: host text entries to the engine's index-to-field map.
use vstd::prelude::*;
use vstd::string::StrSliceExecFns;
use std::collections::BTreeMap;
use crate::hex_text::{digit_value, is_hex_digit};

verus! {

/// A character that is a decimal digit.
pub open spec fn is_decimal_digit(c: char) -> bool {
    '0' <= c && c <= '9'
}

/// The value of decimal text, most significant digit first.
pub open spec fn decimal_value(s: Seq<char>) -> nat
    decreases s.len(),
{
    if s.len() == 0 {
        0
    } else {
        decimal_value(s.drop_last()) * 10 + (s.last() as nat - '0' as nat) as nat
    }
}

/// The digits of key text, after an optional leading `+`.
pub open spec fn index_digits(s: Seq<char>) -> Seq<char> {
    if s.len() > 0 && s[0] == '+' {
        s.skip(1)
    } else {
        s
    }
}

/// The witness index that key text names: an optional `+`, then non-empty
/// decimal text whose value fits in 32 bits.
pub open spec fn witness_index_of(s: Seq<char>) -> Option<u32> {
    let d = index_digits(s);
    if d.len() > 0 && (forall|i: int| 0 <= i < d.len() ==> #[trigger] is_decimal_digit(d[i]))
        && decimal_value(d) <= u32::MAX {
        Some(decimal_value(d) as u32)
    } else {
        None
    }
}

/// The digits of field element text, after an optional `0x` prefix.
pub open spec fn field_digits(s: Seq<char>) -> Seq<char> {
    if s.len() >= 2 && s[0] == '0' && s[1] == 'x' {
        s.skip(2)
    } else {
        s
    }
}

/// The value of each hexadecimal digit, most significant first.
pub open spec fn nibbles_of(d: Seq<char>) -> Seq<u8> {
    d.map_values(|c: char| digit_value(c) as u8)
}

/// Digit values with the leading zeros removed; zero itself is empty.
pub open spec fn without_leading_zeros(n: Seq<u8>) -> Seq<u8>
    decreases n.len(),
{
    if n.len() > 0 && n[0] == 0 {
        without_leading_zeros(n.skip(1))
    } else {
        n
    }
}

/// Lexicographic order on digit sequences: the first differing digit decides.
pub open spec fn lex_less(a: Seq<u8>, b: Seq<u8>) -> bool
    decreases a.len(),
{
    if a.len() == 0 || b.len() == 0 {
        false
    } else if a[0] != b[0] {
        a[0] < b[0]
    } else {
        lex_less(a.skip(1), b.skip(1))
    }
}

/// The hexadecimal digits of the field's prime modulus, most significant first.
pub open spec fn modulus_nibbles() -> Seq<u8> {
    seq![
        3u8, 0, 6, 4, 4, 14, 7, 2, 14, 1, 3, 1, 10, 0, 2, 9, 11, 8, 5, 0, 4, 5, 11, 6, 8, 1, 8, 1,
        5, 8, 5, 13, 2, 8, 3, 3, 14, 8, 4, 8, 7, 9, 11, 9, 7, 0, 9, 1, 4, 3, 14, 1, 15, 5, 9, 3, 15,
        0, 0, 0, 0, 0, 0, 1,
    ]
}

/// Digits without leading zeros stand for a value below the modulus: fewer
/// digits than the modulus has, or as many and lexicographically smaller.
pub open spec fn below_modulus(n: Seq<u8>) -> bool {
    n.len() < 64 || (n.len() == 64 && lex_less(n, modulus_nibbles()))
}

/// The field element that value text names, as its digits without leading
/// zeros: an optional `0x` prefix, then at least one hexadecimal digit of
/// either case, standing for a value below the modulus.
pub open spec fn field_value_of(s: Seq<char>) -> Option<Seq<u8>> {
    let d = field_digits(s);
    let n = without_leading_zeros(nibbles_of(d));
    if d.len() > 0 && (forall|i: int| 0 <= i < d.len() ==> #[trigger] is_hex_digit(d[i]))
        && below_modulus(n) {
        Some(n)
    } else {
        None
    }
}

/// An element of the proving field, held as its hexadecimal digit values,
/// most significant first, without leading zeros (zero has no digits).
#[derive(Clone, Debug, PartialEq, Eq)]
pub struct FieldValue {
    pub nibbles: Vec<u8>,
}

impl FieldValue {
    /// Every entry is a hexadecimal digit value, and the first is not zero.
    pub open spec fn wf(&self) -> bool {
        &&& forall|i: int| 0 <= i < self.nibbles@.len() ==> #[trigger] self.nibbles@[i] < 16
        &&& self.nibbles@.len() > 0 ==> self.nibbles@[0] != 0
    }
}

proof fn lemma_decimal_prefix(s: Seq<char>, k: int)
    requires
        0 <= k <= s.len(),
        forall|i: int| 0 <= i < s.len() ==> #[trigger] is_decimal_digit(s[i]),
    ensures
        decimal_value(s.take(k)) <= decimal_value(s),
    decreases s.len(),
{
    if k < s.len() {
        assert(is_decimal_digit(s[s.len() - 1]));
        let t = s.drop_last();
        assert forall|i: int| 0 <= i < t.len() implies #[trigger] is_decimal_digit(t[i]) by {
            assert(is_decimal_digit(s[i]));
        }
        lemma_decimal_prefix(t, k);
        assert(t.take(k) =~= s.take(k));
    } else {
        assert(s.take(k) =~= s);
    }
}

/// Parses witness key text as a decimal index.
pub fn parse_witness_index(s: &str) -> (r: Option<u32>)
    ensures
        r == witness_index_of(s@),
{
    let len = s.unicode_len();
    let start: usize = if len > 0 && s.get_char(0) == '+' {
        1
    } else {
        0
    };
    let ghost d = index_digits(s@);
    assert(d =~= s@.subrange(start as int, len as int));
    if start == len {
        return None;
    }
    let mut acc: u64 = 0;
    let mut i: usize = start;
    while i < len
        invariant
            len == s@.len(),
            start <= i <= len,
            d == s@.subrange(start as int, len as int),
            d == index_digits(s@),
            acc == decimal_value(d.take(i - start)),
            acc <= u32::MAX,
            forall|j: int| 0 <= j < i - start ==> #[trigger] is_decimal_digit(d[j]),
        decreases len - i,
    {
        let c = s.get_char(i);
        assert(d[i - start] == c);
        if !('0' <= c && c <= '9') {
            assert(!is_decimal_digit(d[i - start]));
            return None;
        }
        let dv = (c as u32 - '0' as u32) as u64;
        proof {
            assert(d.take(i - start + 1).drop_last() =~= d.take(i - start));
        }
        acc = acc * 10 + dv;
        i = i + 1;
        if acc > 0xffff_ffff {
            proof {
                if forall|j: int| 0 <= j < d.len() ==> #[trigger] is_decimal_digit(d[j]) {
                    lemma_decimal_prefix(d, i - start);
                }
            }
            return None;
        }
    }
    assert(d.take(len - start) =~= d);
    Some(acc as u32)
}

/// The value of a hexadecimal digit character, if it is one.
fn hex_digit_value(c: char) -> (r: Option<u8>)
    ensures
        r is Some <==> is_hex_digit(c),
        r is Some ==> r->Some_0 as nat == digit_value(c),
        r is Some ==> r->Some_0 < 16,
{
    if '0' <= c && c <= '9' {
        Some((c as u32 - '0' as u32) as u8)
    } else if 'a' <= c && c <= 'f' {
        Some((c as u32 - 'a' as u32 + 10) as u8)
    } else if 'A' <= c && c <= 'F' {
        Some((c as u32 - 'A' as u32 + 10) as u8)
    } else {
        None
    }
}

fn modulus_digits() -> (r: Vec<u8>)
    ensures
        r@ == modulus_nibbles(),
{
    let r: Vec<u8> = vec![
        3u8, 0, 6, 4, 4, 14, 7, 2, 14, 1, 3, 1, 10, 0, 2, 9, 11, 8, 5, 0, 4, 5, 11, 6, 8, 1, 8, 1,
        5, 8, 5, 13, 2, 8, 3, 3, 14, 8, 4, 8, 7, 9, 11, 9, 7, 0, 9, 1, 4, 3, 14, 1, 15, 5, 9, 3, 15,
        0, 0, 0, 0, 0, 0, 1,
    ];
    assert(r@ =~= modulus_nibbles());
    r
}

/// Parses field element text: an optional `0x` prefix, then hexadecimal
/// digits standing for a value below the field's modulus.
pub fn parse_field_value(s: &str) -> (r: Option<FieldValue>)
    ensures
        r is Some <==> field_value_of(s@) is Some,
        r is Some ==> r->Some_0.nibbles@ == field_value_of(s@)->Some_0,
        r is Some ==> r->Some_0.wf(),
{
    let len = s.unicode_len();
    let start: usize = if len >= 2 && s.get_char(0) == '0' && s.get_char(1) == 'x' {
        2
    } else {
        0
    };
    assert(field_digits(s@) =~= s@.subrange(start as int, len as int));
    if start == len {
        return None;
    }
    let mut nib: Vec<u8> = Vec::new();
    let mut i: usize = start;
    while i < len
        invariant
            len == s@.len(),
            start <= i <= len,
            field_digits(s@) == s@.subrange(start as int, len as int),
            nib@ == nibbles_of(s@.subrange(start as int, i as int)),
            forall|j: int| 0 <= j < nib@.len() ==> #[trigger] nib@[j] < 16,
            forall|j: int| start <= j < i ==> #[trigger] is_hex_digit(s@[j]),
        decreases len - i,
    {
        let c = s.get_char(i);
        match hex_digit_value(c) {
            Some(d) => {
                nib.push(d);
                proof {
                    assert(nibbles_of(s@.subrange(start as int, i + 1)) =~= nibbles_of(
                        s@.subrange(start as int, i as int),
                    ).push(d));
                }
            },
            None => {
                proof {
                    let d = field_digits(s@);
                    assert(d[i - start] == s@[i as int]);
                }
                return None;
            },
        }
        i = i + 1;
    }
    proof {
        let d = field_digits(s@);
        assert forall|j: int| 0 <= j < d.len() implies #[trigger] is_hex_digit(d[j]) by {
            assert(is_hex_digit(s@[j + start]));
        }
    }
    let mut z: usize = 0;
    assert(nib@.skip(0) =~= nib@);
    while z < nib.len() && nib[z] == 0
        invariant
            z <= nib@.len(),
            without_leading_zeros(nib@) == without_leading_zeros(nib@.skip(z as int)),
        decreases nib@.len() - z,
    {
        assert(nib@.skip(z as int).skip(1) =~= nib@.skip(z + 1));
        z = z + 1;
    }
    let ghost sig_spec = nib@.skip(z as int);
    assert(without_leading_zeros(sig_spec) == sig_spec);
    if nib.len() - z > 64 {
        return None;
    }
    let mut sig: Vec<u8> = Vec::new();
    let mut j: usize = z;
    while j < nib.len()
        invariant
            z <= j <= nib@.len(),
            sig@ == nib@.subrange(z as int, j as int),
            forall|t: int| 0 <= t < nib@.len() ==> #[trigger] nib@[t] < 16,
        decreases nib@.len() - j,
    {
        sig.push(nib[j]);
        assert(sig@ =~= nib@.subrange(z as int, j + 1));
        j = j + 1;
    }
    assert(sig@ =~= sig_spec);
    assert(sig@.len() > 0 ==> sig@[0] == nib@[z as int]);
    if sig.len() == 64 {
        let m = modulus_digits();
        let mut k: usize = 0;
        assert(sig@.skip(0) =~= sig@);
        assert(m@.skip(0) =~= m@);
        while k < 64 && sig[k] == m[k]
            invariant
                k <= 64,
                sig@.len() == 64,
                m@.len() == 64,
                lex_less(sig@, m@) == lex_less(sig@.skip(k as int), m@.skip(k as int)),
            decreases 64 - k,
        {
            assert(sig@.skip(k as int).skip(1) =~= sig@.skip(k + 1));
            assert(m@.skip(k as int).skip(1) =~= m@.skip(k + 1));
            k = k + 1;
        }
        if k == 64 || sig[k] > m[k] {
            return None;
        }
    }
    Some(FieldValue { nibbles: sig })
}

/// Which witness entry could not be marshaled, by its position in the
/// host's sequence of entries, and which of its two texts failed.
#[derive(Clone, Copy, Debug, PartialEq, Eq, Structural)]
pub enum MarshalError {
    InvalidIndex(usize),
    InvalidValue(usize),
}

/// The texts of host entries.
pub open spec fn entry_texts(entries: Seq<(String, String)>) -> Seq<(Seq<char>, Seq<char>)> {
    entries.map_values(|p: (String, String)| (p.0@, p.1@))
}

/// An entry whose key names a witness index and whose value names a field element.
pub open spec fn entry_valid(e: (Seq<char>, Seq<char>)) -> bool {
    witness_index_of(e.0) is Some && field_value_of(e.1) is Some
}

/// What marshaling entries yields: entries are taken in order, each later
/// entry for an index replacing an earlier one; the first entry whose key or
/// value does not parse (key first) aborts the whole call.
pub open spec fn marshaled(ents: Seq<(Seq<char>, Seq<char>)>) -> Result<
    Map<u32, Seq<u8>>,
    MarshalError,
>
    decreases ents.len(),
{
    if ents.len() == 0 {
        Ok(Map::empty())
    } else {
        match marshaled(ents.drop_last()) {
            Err(e) => Err(e),
            Ok(m) => {
                let last = ents.last();
                let pos = (ents.len() - 1) as usize;
                match witness_index_of(last.0) {
                    None => Err(MarshalError::InvalidIndex(pos)),
                    Some(k) => match field_value_of(last.1) {
                        None => Err(MarshalError::InvalidValue(pos)),
                        Some(v) => Ok(m.insert(k, v)),
                    },
                }
            },
        }
    }
}

/// A complete witness assignment: field elements by witness index.
#[derive(Clone, Debug, PartialEq, Eq)]
pub struct WitnessMap {
    pub entries: BTreeMap<u32, FieldValue>,
}

impl View for WitnessMap {
    type V = Map<u32, Seq<u8>>;

    open spec fn view(&self) -> Map<u32, Seq<u8>> {
        self.entries@.map_values(|v: FieldValue| v.nibbles@)
    }
}

impl WitnessMap {
    /// Every assigned field element is well formed.
    pub open spec fn wf(&self) -> bool {
        forall|k: u32| #[trigger] self.entries@.contains_key(k) ==> self.entries@[k].wf()
    }

    /// The field element assigned to a witness index, if any.
    pub fn get(&self, index: u32) -> (r: Option<&FieldValue>)
        ensures
            r is Some <==> self@.contains_key(index),
            r is Some ==> r->Some_0.nibbles@ == self@[index],
    {
        broadcast use vstd::std_specs::btree::group_btree_axioms, vstd::laws_cmp::group_laws_cmp;

        self.entries.get(&index)
    }

    /// The number of assigned witness indices.
    pub fn len(&self) -> (r: usize)
        ensures
            r == self@.len(),
    {
        broadcast use vstd::std_specs::btree::group_btree_axioms, vstd::laws_cmp::group_laws_cmp;

        assert(self@.dom() =~= self.entries@.dom());
        self.entries.len()
    }
}

proof fn lemma_marshal_error_persists(ents: Seq<(Seq<char>, Seq<char>)>, k: int)
    requires
        0 <= k <= ents.len(),
        marshaled(ents.take(k)) is Err,
    ensures
        marshaled(ents) == marshaled(ents.take(k)),
    decreases ents.len(),
{
    if k < ents.len() {
        let t = ents.drop_last();
        assert(t.take(k) =~= ents.take(k));
        lemma_marshal_error_persists(t, k);
    } else {
        assert(ents.take(k) =~= ents);
    }
}

/// Converts host witness entries, key text to value text, into a witness
/// map; the first entry that does not parse aborts the call, so no partial
/// map is ever returned.
pub fn marshal_witness(entries: &Vec<(String, String)>) -> (r: Result<WitnessMap, MarshalError>)
    ensures
        match r {
            Ok(m) => m.wf() && marshaled(entry_texts(entries@)) == Ok::<
                Map<u32, Seq<u8>>,
                MarshalError,
            >(m@),
            Err(e) => marshaled(entry_texts(entries@)) == Err::<Map<u32, Seq<u8>>, MarshalError>(e),
        },
{
    broadcast use vstd::std_specs::btree::group_btree_axioms, vstd::laws_cmp::group_laws_cmp;

    let ghost ents = entry_texts(entries@);
    let mut map = WitnessMap { entries: BTreeMap::new() };
    assert(ents.take(0) =~= Seq::<(Seq<char>, Seq<char>)>::empty());
    assert(map@ =~= Map::<u32, Seq<u8>>::empty());
    let mut i: usize = 0;
    while i < entries.len()
        invariant
            ents == entry_texts(entries@),
            i <= entries@.len(),
            marshaled(ents.take(i as int)) == Ok::<Map<u32, Seq<u8>>, MarshalError>(map@),
            map.wf(),
        decreases entries@.len() - i,
    {
        let key = parse_witness_index(entries[i].0.as_str());
        let value = parse_field_value(entries[i].1.as_str());
        proof {
            assert(ents.take(i + 1).drop_last() =~= ents.take(i as int));
            assert(ents.take(i + 1).last() == ents[i as int]);
        }
        match key {
            None => {
                proof {
                    lemma_marshal_error_persists(ents, i + 1);
                }
                return Err(MarshalError::InvalidIndex(i));
            },
            Some(k) => match value {
                None => {
                    proof {
                        lemma_marshal_error_persists(ents, i + 1);
                    }
                    return Err(MarshalError::InvalidValue(i));
                },
                Some(v) => {
                    let ghost before = map@;
                    let ghost nv = v.nibbles@;
                    map.entries.insert(k, v);
                    assert(map@ =~= before.insert(k, nv));
                },
            },
        }
        i = i + 1;
    }
    assert(ents.take(i as int) =~= ents);
    Ok(map)
}

/// Prepares the engine's inputs for a prove call: the bytecode text, passed
/// on unchanged, and the witness map built from the host's entries.
pub fn marshal(bytecode: &str, entries: &Vec<(String, String)>) -> (r: Result<
    (String, WitnessMap),
    MarshalError,
>)
    ensures
        match r {
            Ok((b, m)) => b@ == bytecode@ && m.wf() && marshaled(entry_texts(entries@)) == Ok::<
                Map<u32, Seq<u8>>,
                MarshalError,
            >(m@),
            Err(e) => marshaled(entry_texts(entries@)) == Err::<Map<u32, Seq<u8>>, MarshalError>(e),
        },
{
    match marshal_witness(entries) {
        Ok(m) => Ok((bytecode.to_owned(), m)),
        Err(e) => Err(e),
    }
}

/// Entries that agree on the field element wherever their keys name the same index.
pub open spec fn indices_consistent(ents: Seq<(Seq<char>, Seq<char>)>) -> bool {
    forall|i: int, j: int|
        0 <= i < ents.len() && 0 <= j < ents.len() && #[trigger] witness_index_of(ents[i].0)
            == #[trigger] witness_index_of(ents[j].0) ==> field_value_of(ents[i].1)
            == field_value_of(ents[j].1)
}

proof fn lemma_marshaled_shape(ents: Seq<(Seq<char>, Seq<char>)>)
    ensures
        (marshaled(ents) is Ok) == (forall|i: int| 0 <= i < ents.len() ==> #[trigger] entry_valid(ents[i])),
        marshaled(ents) is Ok ==> forall|k: u32| #[trigger]
            marshaled(ents)->Ok_0.contains_key(k) <==> exists|i: int|
                0 <= i < ents.len() && #[trigger] witness_index_of(ents[i].0) == Some(k),
        marshaled(ents) is Ok ==> forall|k: u32| #[trigger]
            marshaled(ents)->Ok_0.contains_key(k) ==> exists|i: int|
                0 <= i < ents.len() && #[trigger] witness_index_of(ents[i].0) == Some(k)
                    && field_value_of(ents[i].1) == Some(marshaled(ents)->Ok_0[k]),
    decreases ents.len(),
{
    if ents.len() > 0 {
        let t = ents.drop_last();
        let n = ents.len() - 1;
        lemma_marshaled_shape(t);
        assert forall|i: int| 0 <= i < t.len() implies t[i] == ents[i] by {}
        if marshaled(t) is Ok && entry_valid(ents[n]) {
            let m = marshaled(ents)->Ok_0;
            let kn = witness_index_of(ents[n].0)->Some_0;
            assert forall|k: u32| #[trigger] m.contains_key(k) implies exists|i: int|
                0 <= i < ents.len() && #[trigger] witness_index_of(ents[i].0) == Some(k)
                    && field_value_of(ents[i].1) == Some(m[k]) by {
                if k == kn {
                    assert(witness_index_of(ents[n].0) == Some(k));
                } else {
                    let i = choose|i: int|
                        0 <= i < t.len() && #[trigger] witness_index_of(t[i].0) == Some(k)
                            && field_value_of(t[i].1) == Some(marshaled(t)->Ok_0[k]);
                    assert(witness_index_of(ents[i].0) == Some(k));
                }
            }
            assert forall|k: u32| (exists|i: int|
                0 <= i < ents.len() && #[trigger] witness_index_of(ents[i].0) == Some(k))
                implies #[trigger] m.contains_key(k) by {
                let i = choose|i: int|
                    0 <= i < ents.len() && #[trigger] witness_index_of(ents[i].0) == Some(k);
                if i < n {
                    assert(witness_index_of(t[i].0) == Some(k));
                }
            }
        } else if marshaled(t) is Err {
            let i = choose|i: int| 0 <= i < t.len() && !#[trigger] entry_valid(t[i]);
            assert(!entry_valid(ents[i]));
        } else {
            assert(!entry_valid(ents[n]));
        }
    }
}

/// Marshaling depends on the entries alone, not on the order in which the
/// host hands them over: two sequences that hold the same entries give the
/// same result, provided entries whose keys name one index agree on its value.
pub proof fn lemma_marshal_order_independent(
    a: Seq<(Seq<char>, Seq<char>)>,
    b: Seq<(Seq<char>, Seq<char>)>,
)
    requires
        forall|x: (Seq<char>, Seq<char>)| a.contains(x) <==> b.contains(x),
        indices_consistent(a),
    ensures
        marshaled(a) is Ok <==> marshaled(b) is Ok,
        marshaled(a) is Ok ==> marshaled(a) == marshaled(b),
{
    lemma_marshaled_shape(a);
    lemma_marshaled_shape(b);
    assert((forall|i: int| 0 <= i < a.len() ==> #[trigger] entry_valid(a[i])) <==> (forall|
        j: int,
    | 0 <= j < b.len() ==> #[trigger] entry_valid(b[j]))) by {
        if forall|i: int| 0 <= i < a.len() ==> #[trigger] entry_valid(a[i]) {
            assert forall|j: int| 0 <= j < b.len() implies #[trigger] entry_valid(b[j]) by {
                assert(b.contains(b[j]));
                assert(a.contains(b[j]));
            }
        }
        if forall|j: int| 0 <= j < b.len() ==> #[trigger] entry_valid(b[j]) {
            assert forall|i: int| 0 <= i < a.len() implies #[trigger] entry_valid(a[i]) by {
                assert(a.contains(a[i]));
                assert(b.contains(a[i]));
            }
        }
    }
    if marshaled(a) is Ok {
        let ma = marshaled(a)->Ok_0;
        let mb = marshaled(b)->Ok_0;
        assert forall|k: u32| ma.contains_key(k) <==> mb.contains_key(k) by {
            if ma.contains_key(k) {
                let i = choose|i: int| 0 <= i < a.len() && #[trigger] witness_index_of(a[i].0) == Some(k);
                assert(a.contains(a[i]));
                let j = choose|j: int| 0 <= j < b.len() && b[j] == a[i];
                assert(witness_index_of(b[j].0) == Some(k));
            }
            if mb.contains_key(k) {
                let j = choose|j: int| 0 <= j < b.len() && #[trigger] witness_index_of(b[j].0) == Some(k);
                assert(b.contains(b[j]));
                let i = choose|i: int| 0 <= i < a.len() && a[i] == b[j];
                assert(witness_index_of(a[i].0) == Some(k));
            }
        }
        assert forall|k: u32| ma.contains_key(k) implies ma[k] == mb[k] by {
            let i = choose|i: int|
                0 <= i < a.len() && #[trigger] witness_index_of(a[i].0) == Some(k)
                    && field_value_of(a[i].1) == Some(ma[k]);
            let j = choose|j: int|
                0 <= j < b.len() && #[trigger] witness_index_of(b[j].0) == Some(k)
                    && field_value_of(b[j].1) == Some(mb[k]);
            assert(b.contains(b[j]));
            let i2 = choose|i2: int| 0 <= i2 < a.len() && a[i2] == b[j];
            assert(witness_index_of(a[i].0) == witness_index_of(a[i2].0));
        }
        assert(ma =~= mb);
    }
}

/// One entry whose key is not a decimal index fails the whole call: no
/// partial map is produced.
pub proof fn lemma_bad_key_aborts(ents: Seq<(Seq<char>, Seq<char>)>, i: int)
    requires
        0 <= i < ents.len(),
        witness_index_of(ents[i].0) is None,
    ensures
        marshaled(ents) is Err,
{
    lemma_marshaled_shape(ents);
    assert(!entry_valid(ents[i]));
}

} // verus!
