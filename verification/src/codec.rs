//! Unambiguous byte encodings of records.
//!
//! A text is its UTF-8 bytes followed by a byte that UTF-8 never uses, numbers have fixed widths,
//! and a list marks each item. The fields of a record can therefore be read back from their
//! concatenation, so that equal bytes mean equal fields.

use crate::text;
use vstd::bytes::*;
use vstd::bytes::u32_to_le_bytes;
use vstd::bytes::u64_to_le_bytes;
use vstd::prelude::*;
use vstd::utf8::*;

verus! {

/// The byte that ends a text.
pub const TEXT_END: u8 = 0xFF;

/// A text as a field.
pub open spec fn text_field(s: Seq<char>) -> Seq<u8> {
    encode_utf8(s).push(TEXT_END)
}

/// A 32-bit number as a field.
pub open spec fn u32_field(n: u32) -> Seq<u8> {
    spec_u32_to_le_bytes(n)
}

/// A 64-bit number as a field.
pub open spec fn u64_field(n: u64) -> Seq<u8> {
    spec_u64_to_le_bytes(n)
}

/// A flag as a field.
pub open spec fn flag_field(b: bool) -> Seq<u8> {
    seq![
        if b {
            1u8
        } else {
            0u8
        },
    ]
}

/// The items of a list, each behind a mark.
pub open spec fn list_items(items: Seq<Seq<char>>) -> Seq<u8>
    decreases items.len(),
{
    if items.len() == 0 {
        Seq::empty()
    } else {
        list_items(items.drop_last()) + flag_field(true) + text_field(items.last())
    }
}

/// A list of texts as a field.
pub open spec fn list_field(items: Seq<Seq<char>>) -> Seq<u8> {
    list_items(items) + flag_field(false)
}

/// No byte of a valid UTF-8 string ends a text.
proof fn lemma_no_text_end(bytes: Seq<u8>, i: int)
    requires
        valid_utf8(bytes),
        0 <= i < bytes.len(),
    ensures
        bytes[i] != TEXT_END,
    decreases bytes.len(),
{
    let n = vstd::utf8::length_of_first_scalar(bytes);
    if i >= n {
        let rest = vstd::utf8::pop_first_scalar(bytes);
        assert(rest[i - n] == bytes[i]);
        lemma_no_text_end(rest, i - n);
    }
}

/// A text can be read back from the front of a byte string.
pub proof fn lemma_text_field(a: Seq<char>, b: Seq<char>, r: Seq<u8>, s: Seq<u8>)
    requires
        text_field(a) + r == text_field(b) + s,
    ensures
        a == b,
        r == s,
{
    let x = encode_utf8(a);
    let y = encode_utf8(b);
    vstd::utf8::encode_utf8_valid_utf8(a);
    vstd::utf8::encode_utf8_valid_utf8(b);
    let left = text_field(a) + r;
    let right = text_field(b) + s;
    if x.len() < y.len() {
        lemma_no_text_end(y, x.len() as int);
        assert(left[x.len() as int] == TEXT_END);
        assert(right[x.len() as int] == y[x.len() as int]);
    }
    if y.len() < x.len() {
        lemma_no_text_end(x, y.len() as int);
        assert(right[y.len() as int] == TEXT_END);
        assert(left[y.len() as int] == x[y.len() as int]);
    }
    assert forall|i: int| 0 <= i < x.len() implies x[i] == y[i] by {
        assert(left[i] == x[i]);
        assert(right[i] == y[i]);
    }
    assert(x =~= y);
    text::lemma_utf8_injective(a, b);
    lemma_same_front(text_field(a), text_field(b), r, s);
}

/// Fronts of the same length can be told apart from what follows them.
pub proof fn lemma_same_front(a: Seq<u8>, b: Seq<u8>, r: Seq<u8>, s: Seq<u8>)
    requires
        a + r == b + s,
        a.len() == b.len(),
    ensures
        a == b,
        r == s,
{
    let left = a + r;
    let right = b + s;
    assert forall|i: int| 0 <= i < a.len() implies a[i] == b[i] by {
        assert(left[i] == a[i]);
        assert(right[i] == b[i]);
    }
    assert(a =~= b);
    assert(r.len() == s.len()) by {
        assert(left.len() == right.len());
    }
    assert forall|i: int| 0 <= i < r.len() implies r[i] == s[i] by {
        assert(left[a.len() + i] == r[i]);
        assert(right[b.len() + i] == s[i]);
    }
    assert(r =~= s);
}

/// A 32-bit number can be read back from the front of a byte string.
pub proof fn lemma_u32_field(a: u32, b: u32, r: Seq<u8>, s: Seq<u8>)
    requires
        u32_field(a) + r == u32_field(b) + s,
    ensures
        a == b,
        r == s,
{
    vstd::bytes::lemma_auto_spec_u32_to_from_le_bytes();
    lemma_same_front(u32_field(a), u32_field(b), r, s);
    assert(vstd::bytes::spec_u32_from_le_bytes(u32_field(a)) == a);
    assert(vstd::bytes::spec_u32_from_le_bytes(u32_field(b)) == b);
}

/// A 64-bit number can be read back from the front of a byte string.
pub proof fn lemma_u64_field(a: u64, b: u64, r: Seq<u8>, s: Seq<u8>)
    requires
        u64_field(a) + r == u64_field(b) + s,
    ensures
        a == b,
        r == s,
{
    vstd::bytes::lemma_auto_spec_u64_to_from_le_bytes();
    lemma_same_front(u64_field(a), u64_field(b), r, s);
    assert(vstd::bytes::spec_u64_from_le_bytes(u64_field(a)) == a);
    assert(vstd::bytes::spec_u64_from_le_bytes(u64_field(b)) == b);
}

/// A flag can be read back from the front of a byte string.
pub proof fn lemma_flag_field(a: bool, b: bool, r: Seq<u8>, s: Seq<u8>)
    requires
        flag_field(a) + r == flag_field(b) + s,
    ensures
        a == b,
        r == s,
{
    lemma_same_front(flag_field(a), flag_field(b), r, s);
    assert(flag_field(a)[0] == flag_field(b)[0]);
}

/// The items of a list, taken from the front.
proof fn lemma_list_front(items: Seq<Seq<char>>)
    requires
        items.len() > 0,
    ensures
        list_items(items) == flag_field(true) + (text_field(items[0]) + list_items(
            items.drop_first(),
        )),
    decreases items.len(),
{
    let head = items.drop_last();
    if head.len() == 0 {
        assert(items.drop_first() =~= Seq::empty());
        assert(items.last() == items[0]);
        assert(list_items(head) =~= Seq::empty());
        assert(list_items(items) =~= flag_field(true) + (text_field(items[0]) + list_items(
            items.drop_first(),
        )));
    } else {
        lemma_list_front(head);
        assert(head.drop_first() =~= items.drop_first().drop_last());
        assert(head[0] == items[0]);
        assert(items.drop_first().last() == items.last());
        assert(list_items(items) =~= flag_field(true) + (text_field(items[0]) + list_items(
            items.drop_first(),
        )));
    }
}

/// A list can be read back from the front of a byte string.
pub proof fn lemma_list_field(a: Seq<Seq<char>>, b: Seq<Seq<char>>, r: Seq<u8>, s: Seq<u8>)
    requires
        list_field(a) + r == list_field(b) + s,
    ensures
        a == b,
        r == s,
    decreases a.len() + b.len(),
{
    let left = list_field(a) + r;
    let right = list_field(b) + s;
    if a.len() == 0 {
        assert(list_field(a) =~= flag_field(false));
    } else {
        lemma_list_front(a);
        assert(left =~= flag_field(true) + (text_field(a[0]) + (list_field(a.drop_first()) + r)));
    }
    if b.len() == 0 {
        assert(list_field(b) =~= flag_field(false));
    } else {
        lemma_list_front(b);
        assert(right =~= flag_field(true) + (text_field(b[0]) + (list_field(b.drop_first()) + s)));
    }
    if a.len() == 0 && b.len() == 0 {
        lemma_same_front(list_field(a), list_field(b), r, s);
        assert(a =~= b);
    } else if a.len() == 0 {
        assert(left[0] == 0u8);
        assert(right[0] == 1u8);
    } else if b.len() == 0 {
        assert(left[0] == 1u8);
        assert(right[0] == 0u8);
    } else {
        let x = text_field(a[0]) + (list_field(a.drop_first()) + r);
        let y = text_field(b[0]) + (list_field(b.drop_first()) + s);
        lemma_flag_field(true, true, x, y);
        lemma_text_field(
            a[0],
            b[0],
            list_field(a.drop_first()) + r,
            list_field(b.drop_first()) + s,
        );
        lemma_list_field(a.drop_first(), b.drop_first(), r, s);
        assert(a =~= seq![a[0]] + a.drop_first());
        assert(b =~= seq![b[0]] + b.drop_first());
    }
}

/// One field of a record.
#[verifier::ext_equal]
pub enum Field {
    Text(Seq<char>),
    Number(u32),
    Time(u64),
    Flag(bool),
    List(Seq<Seq<char>>),
}

/// The bytes of a field.
pub open spec fn field_bytes(f: Field) -> Seq<u8> {
    match f {
        Field::Text(s) => text_field(s),
        Field::Number(n) => u32_field(n),
        Field::Time(n) => u64_field(n),
        Field::Flag(b) => flag_field(b),
        Field::List(items) => list_field(items),
    }
}

/// Two fields are of the same kind.
pub open spec fn same_kind(a: Field, b: Field) -> bool {
    match a {
        Field::Text(_) => b is Text,
        Field::Number(_) => b is Number,
        Field::Time(_) => b is Time,
        Field::Flag(_) => b is Flag,
        Field::List(_) => b is List,
    }
}

/// The bytes of a record.
pub open spec fn record_bytes(fields: Seq<Field>) -> Seq<u8>
    decreases fields.len(),
{
    if fields.len() == 0 {
        Seq::empty()
    } else {
        record_bytes(fields.drop_last()) + field_bytes(fields.last())
    }
}

/// The bytes of a record start with those of its first field.
pub proof fn lemma_record_tag(fields: Seq<Field>)
    requires
        fields.len() > 0,
    ensures
        record_bytes(fields) == field_bytes(fields[0]) + record_bytes(fields.drop_first()),
    decreases fields.len(),
{
    let head = fields.drop_last();
    if head.len() == 0 {
        assert(fields.drop_first() =~= Seq::empty());
        assert(record_bytes(head) =~= Seq::empty());
        assert(record_bytes(fields) =~= field_bytes(fields[0]) + record_bytes(fields.drop_first()));
    } else {
        lemma_record_tag(head);
        assert(head.drop_first() =~= fields.drop_first().drop_last());
        assert(record_bytes(fields) =~= field_bytes(fields[0]) + record_bytes(fields.drop_first()));
    }
}

/// Records whose fields are of the same kinds have the same bytes only if they are the same.
pub proof fn law_record_bytes_injective(a: Seq<Field>, b: Seq<Field>)
    requires
        a.len() == b.len(),
        forall|i: int| 0 <= i < a.len() ==> same_kind(#[trigger] a[i], b[i]),
        record_bytes(a) == record_bytes(b),
    ensures
        a == b,
    decreases a.len(),
{
    if a.len() == 0 {
        assert(a =~= b);
    } else {
        lemma_record_tag(a);
        lemma_record_tag(b);
        let r = record_bytes(a.drop_first());
        let s = record_bytes(b.drop_first());
        assert(same_kind(a[0], b[0]));
        match a[0] {
            Field::Text(x) => {
                lemma_text_field(x, b[0]->Text_0, r, s);
            },
            Field::Number(x) => {
                lemma_u32_field(x, b[0]->Number_0, r, s);
            },
            Field::Time(x) => {
                lemma_u64_field(x, b[0]->Time_0, r, s);
            },
            Field::Flag(x) => {
                lemma_flag_field(x, b[0]->Flag_0, r, s);
            },
            Field::List(x) => {
                lemma_list_field(x, b[0]->List_0, r, s);
            },
        }
        assert forall|i: int| 0 <= i < a.drop_first().len() implies same_kind(
            #[trigger] a.drop_first()[i],
            b.drop_first()[i],
        ) by {
            assert(same_kind(a[i + 1], b[i + 1]));
        }
        law_record_bytes_injective(a.drop_first(), b.drop_first());
        assert(a =~= seq![a[0]] + a.drop_first());
        assert(b =~= seq![b[0]] + b.drop_first());
    }
}

/// A record under construction.
pub struct Record {
    bytes: Vec<u8>,
    fields: Ghost<Seq<Field>>,
}

impl View for Record {
    type V = Seq<Field>;

    closed spec fn view(&self) -> Seq<Field> {
        self.fields@
    }
}

impl Record {
    #[verifier::type_invariant]
    spec fn encoded(self) -> bool {
        self.bytes@ == record_bytes(self.fields@)
    }

    /// A record without fields.
    pub fn new() -> (res: Record)
        ensures
            res@ == Seq::<Field>::empty(),
    {
        Record { bytes: Vec::new(), fields: Ghost(Seq::empty()) }
    }

    /// Append a text.
    pub fn put_text(self, s: &str) -> (res: Record)
        ensures
            res@ == self@.push(Field::Text(s@)),
    {
        proof {
            use_type_invariant(&self);
        }
        let ghost fields = self.fields@.push(Field::Text(s@));
        let mut bytes = self.bytes;
        bytes.extend_from_slice(s.as_bytes());
        bytes.push(TEXT_END);
        assert(fields.drop_last() =~= self.fields@);
        assert(bytes@ =~= record_bytes(fields));
        Record { bytes, fields: Ghost(fields) }
    }

    /// Append a 32-bit number.
    pub fn put_u32(self, n: u32) -> (res: Record)
        ensures
            res@ == self@.push(Field::Number(n)),
    {
        proof {
            use_type_invariant(&self);
        }
        let ghost fields = self.fields@.push(Field::Number(n));
        let mut bytes = self.bytes;
        let number = u32_to_le_bytes(n);
        bytes.extend_from_slice(number.as_slice());
        assert(fields.drop_last() =~= self.fields@);
        assert(bytes@ =~= record_bytes(fields));
        Record { bytes, fields: Ghost(fields) }
    }

    /// Append a 64-bit number.
    pub fn put_u64(self, n: u64) -> (res: Record)
        ensures
            res@ == self@.push(Field::Time(n)),
    {
        proof {
            use_type_invariant(&self);
        }
        let ghost fields = self.fields@.push(Field::Time(n));
        let mut bytes = self.bytes;
        let number = u64_to_le_bytes(n);
        bytes.extend_from_slice(number.as_slice());
        assert(fields.drop_last() =~= self.fields@);
        assert(bytes@ =~= record_bytes(fields));
        Record { bytes, fields: Ghost(fields) }
    }

    /// Append a flag.
    pub fn put_flag(self, b: bool) -> (res: Record)
        ensures
            res@ == self@.push(Field::Flag(b)),
    {
        proof {
            use_type_invariant(&self);
        }
        let ghost fields = self.fields@.push(Field::Flag(b));
        let mut bytes = self.bytes;
        let byte: u8 = if b {
            1
        } else {
            0
        };
        bytes.push(byte);
        assert(fields.drop_last() =~= self.fields@);
        assert(bytes@ =~= record_bytes(fields));
        Record { bytes, fields: Ghost(fields) }
    }

    /// Append a list of texts.
    pub fn put_list(self, items: &Vec<String>) -> (res: Record)
        ensures
            res@ == self@.push(Field::List(text::texts(items@))),
    {
        proof {
            use_type_invariant(&self);
        }
        let ghost start = self.bytes@;
        let ghost all = text::texts(items@);
        let ghost fields = self.fields@.push(Field::List(all));
        let mut bytes = self.bytes;
        let mut i: usize = 0;
        assert(start + list_items(all.take(0)) =~= start);
        while i < items.len()
            invariant
                i <= items@.len(),
                all == text::texts(items@),
                bytes@ == start + list_items(all.take(i as int)),
            decreases items.len() - i,
        {
            bytes.push(1u8);
            bytes.extend_from_slice(items[i].as_str().as_bytes());
            bytes.push(TEXT_END);
            i = i + 1;
            proof {
                assert(all.take(i as int).drop_last() =~= all.take(i - 1));
                assert(all.take(i as int).last() == all[i - 1]);
                assert(bytes@ =~= start + list_items(all.take(i as int)));
            }
        }
        assert(all.take(i as int) =~= all);
        bytes.push(0u8);
        assert(fields.drop_last() =~= self.fields@);
        assert(bytes@ =~= record_bytes(fields));
        Record { bytes, fields: Ghost(fields) }
    }

    /// The bytes of the record.
    pub fn into_bytes(self) -> (res: Vec<u8>)
        ensures
            res@ == record_bytes(self@),
    {
        proof {
            use_type_invariant(&self);
        }
        self.bytes
    }
}

} // verus!
