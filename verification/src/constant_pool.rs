//! The constant pool: the table of shared constants that the rest of a class file refers to by
//! index.

use vstd::prelude::*;
use vstd::utf8::{decode_utf8, valid_utf8};
use crate::error::DecodeError;
use crate::mutf8::{decode, lemma_agrees_with_utf8, lemma_decoded_length, plain, spec_decode};
use crate::reader::{ClassFile, Parse, be_u16, spec_bytes, spec_u16, spec_u8, viewed};

verus! {

/// One slot of the constant pool.
#[derive(Debug, PartialEq, Eq)]
pub enum ConstantPoolItem {
    Class { name_index: u16 },
    Methodref { class_index: u16, name_and_type_index: u16 },
    InterfaceMethodref { class_index: u16, name_and_type_index: u16 },
    MethodHandle { reference_kind: u8, reference_index: u16 },
    NameAndType { name_index: u16, descriptor_index: u16 },
    /// A string constant, decoded from modified UTF-8.
    UTF8 { string: String },
    /// A constant of a kind that is carried along undecoded: its tag and the bytes after it.
    Unmodeled { tag: u8, bytes: Vec<u8> },
    /// The slot after an eight-byte constant, which the format leaves empty.
    Unusable,
}

/// A slot of the constant pool as a mathematical value.
pub ghost enum ConstantPoolItemView {
    Class { name_index: u16 },
    Methodref { class_index: u16, name_and_type_index: u16 },
    InterfaceMethodref { class_index: u16, name_and_type_index: u16 },
    MethodHandle { reference_kind: u8, reference_index: u16 },
    NameAndType { name_index: u16, descriptor_index: u16 },
    UTF8 { string: Seq<char> },
    Unmodeled { tag: u8, bytes: Seq<u8> },
    Unusable,
}

impl View for ConstantPoolItem {
    type V = ConstantPoolItemView;

    open spec fn view(&self) -> ConstantPoolItemView {
        match self {
            ConstantPoolItem::Class { name_index } => ConstantPoolItemView::Class {
                name_index: *name_index,
            },
            ConstantPoolItem::Methodref {
                class_index,
                name_and_type_index,
            } => ConstantPoolItemView::Methodref {
                class_index: *class_index,
                name_and_type_index: *name_and_type_index,
            },
            ConstantPoolItem::InterfaceMethodref {
                class_index,
                name_and_type_index,
            } => ConstantPoolItemView::InterfaceMethodref {
                class_index: *class_index,
                name_and_type_index: *name_and_type_index,
            },
            ConstantPoolItem::MethodHandle {
                reference_kind,
                reference_index,
            } => ConstantPoolItemView::MethodHandle {
                reference_kind: *reference_kind,
                reference_index: *reference_index,
            },
            ConstantPoolItem::NameAndType {
                name_index,
                descriptor_index,
            } => ConstantPoolItemView::NameAndType {
                name_index: *name_index,
                descriptor_index: *descriptor_index,
            },
            ConstantPoolItem::UTF8 { string } => ConstantPoolItemView::UTF8 { string: string@ },
            ConstantPoolItem::Unmodeled { tag, bytes } => ConstantPoolItemView::Unmodeled {
                tag: *tag,
                bytes: bytes@,
            },
            ConstantPoolItem::Unusable => ConstantPoolItemView::Unusable,
        }
    }
}

/// The constant pool. The slot with index `i`, counted from 1 as the format does, is
/// `items[i - 1]`.
#[derive(Debug, PartialEq, Eq)]
pub struct ConstantPool {
    pub items: Vec<ConstantPoolItem>,
}

impl View for ConstantPool {
    type V = Seq<ConstantPoolItemView>;

    open spec fn view(&self) -> Seq<ConstantPoolItemView> {
        self.items@.map_values(|item: ConstantPoolItem| item@)
    }
}

impl<T> Parse<Seq<T>> {
    /// The same outcome with `lead` put before the decoded items.
    pub open spec fn after(self, lead: Seq<T>) -> Parse<Seq<T>> {
        match self {
            Parse::Done { value, end } => Parse::Done { value: lead + value, end },
            Parse::Failed { error, at } => Parse::Failed { error, at },
        }
    }
}

/// The number of bytes that follow the tag of a constant that is carried along undecoded:
/// Integer and Float (3, 4), Long and Double (5, 6), String (8), Fieldref (9), MethodType (16),
/// InvokeDynamic (18).
pub open spec fn unmodeled_width(tag: u8) -> Option<int> {
    if tag == 3 || tag == 4 || tag == 9 || tag == 18 {
        Some(4)
    } else if tag == 5 || tag == 6 {
        Some(8)
    } else if tag == 8 || tag == 16 {
        Some(2)
    } else {
        None
    }
}

/// Whether a constant takes two slots of the pool, as Long and Double do.
pub open spec fn takes_two_slots(item: ConstantPoolItemView) -> bool {
    item matches ConstantPoolItemView::Unmodeled { tag, .. } && (tag == 5 || tag == 6)
}

/// Two 16-bit numbers in a row.
pub open spec fn spec_u16_pair(s: Seq<u8>, p: int) -> Parse<(u16, u16)> {
    match spec_u16(s, p) {
        Parse::Failed { error, at } => Parse::Failed { error, at },
        Parse::Done { value: a, end } => match spec_u16(s, end) {
            Parse::Failed { error, at } => Parse::Failed { error, at },
            Parse::Done { value: b, end } => Parse::Done { value: (a, b), end },
        },
    }
}

/// The string constant whose length field stands at `p`.
pub open spec fn spec_utf8_item(s: Seq<u8>, p: int) -> Parse<ConstantPoolItemView> {
    match spec_u16(s, p) {
        Parse::Failed { error, at } => Parse::Failed { error, at },
        Parse::Done { value: length, end } => match spec_bytes(s, end, length as int) {
            Parse::Failed { error, at } => Parse::Failed { error, at },
            Parse::Done { value: bytes, end } => match spec_decode(bytes) {
                None => Parse::Failed { error: DecodeError::Utf8DecodeError, at: end },
                Some(string) => Parse::Done {
                    value: ConstantPoolItemView::UTF8 { string },
                    end,
                },
            },
        },
    }
}

/// The constant whose tag stands at `p`.
pub open spec fn spec_item(s: Seq<u8>, p: int) -> Parse<ConstantPoolItemView> {
    match spec_u8(s, p) {
        Parse::Failed { error, at } => Parse::Failed { error, at },
        Parse::Done { value: tag, end: body } => if tag == 1 {
            spec_utf8_item(s, body)
        } else if tag == 7 {
            match spec_u16(s, body) {
                Parse::Failed { error, at } => Parse::Failed { error, at },
                Parse::Done { value: name_index, end } => Parse::Done {
                    value: ConstantPoolItemView::Class { name_index },
                    end,
                },
            }
        } else if tag == 10 || tag == 11 || tag == 12 {
            match spec_u16_pair(s, body) {
                Parse::Failed { error, at } => Parse::Failed { error, at },
                Parse::Done { value: (a, b), end } => Parse::Done {
                    value: if tag == 10 {
                        ConstantPoolItemView::Methodref { class_index: a, name_and_type_index: b }
                    } else if tag == 11 {
                        ConstantPoolItemView::InterfaceMethodref {
                            class_index: a,
                            name_and_type_index: b,
                        }
                    } else {
                        ConstantPoolItemView::NameAndType { name_index: a, descriptor_index: b }
                    },
                    end,
                },
            }
        } else if tag == 15 {
            match spec_u8(s, body) {
                Parse::Failed { error, at } => Parse::Failed { error, at },
                Parse::Done { value: reference_kind, end } => match spec_u16(s, end) {
                    Parse::Failed { error, at } => Parse::Failed { error, at },
                    Parse::Done { value: reference_index, end } => Parse::Done {
                        value: ConstantPoolItemView::MethodHandle {
                            reference_kind,
                            reference_index,
                        },
                        end,
                    },
                },
            }
        } else {
            match unmodeled_width(tag) {
                None => Parse::Failed {
                    error: DecodeError::UnsupportedConstantTag(tag),
                    at: body,
                },
                Some(width) => match spec_bytes(s, body, width) {
                    Parse::Failed { error, at } => Parse::Failed { error, at },
                    Parse::Done { value: bytes, end } => Parse::Done {
                        value: ConstantPoolItemView::Unmodeled { tag, bytes },
                        end,
                    },
                },
            }
        },
    }
}

/// The constants that fill `slots` slots, the first of them at `p`. A constant that takes two
/// slots is followed by an unusable one, unless it stands in the last slot.
pub open spec fn spec_items(s: Seq<u8>, p: int, slots: nat) -> Parse<Seq<ConstantPoolItemView>>
    decreases slots,
{
    if slots == 0 {
        Parse::Done { value: Seq::empty(), end: p }
    } else {
        match spec_item(s, p) {
            Parse::Failed { error, at } => Parse::Failed { error, at },
            Parse::Done { value: item, end } => if takes_two_slots(item) && slots >= 2 {
                spec_items(s, end, (slots - 2) as nat).after(
                    seq![item, ConstantPoolItemView::Unusable],
                )
            } else {
                spec_items(s, end, (slots - 1) as nat).after(seq![item])
            },
        }
    }
}

/// The number of slots of a pool whose count field holds `count`: one less, the format says.
pub open spec fn slots_of(count: u16) -> nat {
    if count == 0 {
        0
    } else {
        (count - 1) as nat
    }
}

/// The constant pool whose count field stands at `p`.
pub open spec fn spec_pool(s: Seq<u8>, p: int) -> Parse<Seq<ConstantPoolItemView>> {
    match spec_u16(s, p) {
        Parse::Failed { error, at } => Parse::Failed { error, at },
        Parse::Done { value: count, end } => spec_items(s, end, slots_of(count)),
    }
}

/// The string in slot `index`.
pub open spec fn spec_utf8(pool: Seq<ConstantPoolItemView>, index: int) -> Result<
    Seq<char>,
    DecodeError,
> {
    if 1 <= index <= pool.len() {
        match pool[index - 1] {
            ConstantPoolItemView::UTF8 { string } => Ok(string),
            _ => Err(DecodeError::InvalidConstantReference),
        }
    } else {
        Err(DecodeError::InvalidConstantReference)
    }
}

/// The name of the class in slot `index`: the string that the class constant there points to.
pub open spec fn spec_class_name(pool: Seq<ConstantPoolItemView>, index: int) -> Result<
    Seq<char>,
    DecodeError,
> {
    if 1 <= index <= pool.len() {
        match pool[index - 1] {
            ConstantPoolItemView::Class { name_index } => spec_utf8(pool, name_index as int),
            _ => Err(DecodeError::InvalidConstantReference),
        }
    } else {
        Err(DecodeError::InvalidConstantReference)
    }
}

/// The index of the first slot that holds the string `name`, if any does.
pub open spec fn spec_utf8_index(pool: Seq<ConstantPoolItemView>, name: Seq<char>) -> Option<int> {
    match pool.index_of_first(ConstantPoolItemView::UTF8 { string: name }) {
        Some(i) => Some(i + 1),
        None => None,
    }
}

/// A string constant holds the text that its bytes encode: the bytes after the tag and the
/// two-byte length, decoded as modified UTF-8. The text is empty only where the length is 0.
/// Where the bytes are also UTF-8 without a zero byte or a four-byte form, the text is the one
/// they encode in UTF-8.
pub proof fn lemma_string_constant_is_decoded(s: Seq<u8>, p: int)
    requires
        spec_item(s, p) is Done,
        spec_item(s, p)->value is UTF8,
    ensures
        ({
            let bytes = s.subrange(p + 3, p + 3 + be_u16(s, p + 1));
            &&& s[p] == 1
            &&& spec_decode(bytes) == Some(spec_item(s, p)->value->string)
            &&& spec_item(s, p)->value->string.len() == 0 <==> be_u16(s, p + 1) == 0
            &&& valid_utf8(bytes) && plain(bytes) ==> spec_item(
                s,
                p,
            )->value->string == decode_utf8(bytes)
        }),
{
    let bytes = s.subrange(p + 3, p + 3 + be_u16(s, p + 1));
    lemma_decoded_length(bytes);
    if valid_utf8(bytes) && plain(bytes) {
        lemma_agrees_with_utf8(bytes);
    }
}

/// A reference to slot 0, or to a slot past the last, resolves to nothing: every lookup by index
/// answers it with `InvalidConstantReference`.
pub proof fn lemma_reference_out_of_range(pool: Seq<ConstantPoolItemView>, index: int)
    requires
        index <= 0 || index > pool.len(),
    ensures
        spec_utf8(pool, index) == Err::<Seq<char>, DecodeError>(
            DecodeError::InvalidConstantReference,
        ),
        spec_class_name(pool, index) == Err::<Seq<char>, DecodeError>(
            DecodeError::InvalidConstantReference,
        ),
{
}

/// A lookup by index that fails, fails with `InvalidConstantReference`, whatever the pool
/// holds.
pub proof fn lemma_reference_fails_one_way(pool: Seq<ConstantPoolItemView>, index: int)
    ensures
        spec_utf8(pool, index) is Err ==> spec_utf8(pool, index)
            == Err::<Seq<char>, DecodeError>(DecodeError::InvalidConstantReference),
        spec_class_name(pool, index) is Err ==> spec_class_name(pool, index)
            == Err::<Seq<char>, DecodeError>(DecodeError::InvalidConstantReference),
{
}

/// Constants that decode fill exactly the slots asked for, and the cursor does not move back.
pub proof fn lemma_items_fill_slots(s: Seq<u8>, p: int, slots: nat)
    ensures
        spec_items(s, p, slots) matches Parse::Done { value, end } ==> {
            &&& value.len() == slots
            &&& p <= end
            &&& slots > 0 ==> 0 <= p && end <= s.len()
        },
    decreases slots,
{
    if slots > 0 {
        if let Parse::Done { value: item, end } = spec_item(s, p) {
            if takes_two_slots(item) && slots >= 2 {
                lemma_items_fill_slots(s, end, (slots - 2) as nat);
            } else {
                lemma_items_fill_slots(s, end, (slots - 1) as nat);
            }
        }
    }
}

/// A pool that decodes has one slot less than its count field says, so that an index at or
/// above the count refers to nothing, as index 0 does.
pub proof fn lemma_pool_size(s: Seq<u8>, p: int, index: int)
    requires
        spec_pool(s, p) is Done,
        index <= 0 || index >= be_u16(s, p),
    ensures
        spec_pool(s, p)->value.len() == slots_of(be_u16(s, p)),
        spec_utf8(spec_pool(s, p)->value, index) == Err::<Seq<char>, DecodeError>(
            DecodeError::InvalidConstantReference,
        ),
        spec_class_name(spec_pool(s, p)->value, index) == Err::<Seq<char>, DecodeError>(
            DecodeError::InvalidConstantReference,
        ),
{
    lemma_items_fill_slots(s, p + 2, slots_of(be_u16(s, p)));
}

/// Reads two 16-bit numbers.
fn read_u16_pair(class_file: &mut ClassFile) -> (r: Result<(u16, u16), DecodeError>)
    ensures
        final(class_file).follows(
            old(class_file),
            r,
            spec_u16_pair(old(class_file).source(), old(class_file).position()),
        ),
{
    let a = class_file.read_u16()?;
    let b = class_file.read_u16()?;
    Ok((a, b))
}

/// The number of bytes to carry along after `tag`.
fn width_after(tag: u8) -> (r: Option<usize>)
    ensures
        match unmodeled_width(tag) {
            Some(w) => r == Some(w as usize),
            None => r is None,
        },
{
    if tag == 3 || tag == 4 || tag == 9 || tag == 18 {
        Some(4)
    } else if tag == 5 || tag == 6 {
        Some(8)
    } else if tag == 8 || tag == 16 {
        Some(2)
    } else {
        None
    }
}

impl ConstantPoolItem {
    /// Reads one constant, tag first.
    pub fn new(class_file: &mut ClassFile) -> (r: Result<ConstantPoolItem, DecodeError>)
        ensures
            final(class_file).follows(
                old(class_file),
                viewed(r),
                spec_item(old(class_file).source(), old(class_file).position()),
            ),
    {
        let tag = class_file.read_u8()?;
        if tag == 1 {
            let length = class_file.read_u16()?;
            let bytes = class_file.read_bytes(length as usize)?;
            let string = decode(bytes.as_slice())?;
            Ok(ConstantPoolItem::UTF8 { string })
        } else if tag == 7 {
            let name_index = class_file.read_u16()?;
            Ok(ConstantPoolItem::Class { name_index })
        } else if tag == 10 {
            let (class_index, name_and_type_index) = read_u16_pair(class_file)?;
            Ok(ConstantPoolItem::Methodref { class_index, name_and_type_index })
        } else if tag == 11 {
            let (class_index, name_and_type_index) = read_u16_pair(class_file)?;
            Ok(ConstantPoolItem::InterfaceMethodref { class_index, name_and_type_index })
        } else if tag == 12 {
            let (name_index, descriptor_index) = read_u16_pair(class_file)?;
            Ok(ConstantPoolItem::NameAndType { name_index, descriptor_index })
        } else if tag == 15 {
            let reference_kind = class_file.read_u8()?;
            let reference_index = class_file.read_u16()?;
            Ok(ConstantPoolItem::MethodHandle { reference_kind, reference_index })
        } else {
            match width_after(tag) {
                None => Err(DecodeError::UnsupportedConstantTag(tag)),
                Some(width) => {
                    let bytes = class_file.read_bytes(width)?;
                    Ok(ConstantPoolItem::Unmodeled { tag, bytes })
                },
            }
        }
    }

    /// Whether this constant takes two slots of the pool.
    pub fn is_wide(&self) -> (r: bool)
        ensures
            r == takes_two_slots(self@),
    {
        match self {
            ConstantPoolItem::Unmodeled { tag, .. } => *tag == 5 || *tag == 6,
            _ => false,
        }
    }
}

impl ConstantPool {
    /// Reads the constant pool: its count, then the constants that fill one slot less than the
    /// count says.
    pub fn new(class_file: &mut ClassFile) -> (r: Result<ConstantPool, DecodeError>)
        ensures
            final(class_file).follows(
                old(class_file),
                viewed(r),
                spec_pool(old(class_file).source(), old(class_file).position()),
            ),
    {
        let constant_pool_count = class_file.read_u16()?;
        let slots: usize = if constant_pool_count == 0 {
            0
        } else {
            (constant_pool_count - 1) as usize
        };
        let ghost s = class_file.source();
        let ghost start = class_file.position();
        let mut items: Vec<ConstantPoolItem> = Vec::new();
        while items.len() < slots
            invariant
                items.len() <= slots,
                class_file.source() == s,
                s == old(class_file).source(),
                old(class_file).position() <= class_file.position() <= s.len(),
                spec_pool(s, old(class_file).position()) == spec_items(s, start, slots as nat),
                spec_items(s, start, slots as nat) == spec_items(
                    s,
                    class_file.position(),
                    (slots - items.len()) as nat,
                ).after(items@.map_values(|item: ConstantPoolItem| item@)),
            decreases slots - items.len(),
        {
            let ghost before = items@.map_values(|item: ConstantPoolItem| item@);
            let ghost left = (slots - items.len()) as nat;
            let item = ConstantPoolItem::new(class_file)?;
            let wide = item.is_wide();
            let ghost first = item@;
            items.push(item);
            if wide && items.len() < slots {
                items.push(ConstantPoolItem::Unusable);
                proof {
                    let rest = spec_items(s, class_file.position(), (left - 2) as nat);
                    assert(items@.map_values(|item: ConstantPoolItem| item@) =~= before + seq![
                        first,
                        ConstantPoolItemView::Unusable,
                    ]);
                    if rest is Done {
                        assert(before + (seq![first, ConstantPoolItemView::Unusable]
                            + rest->value) =~= (before + seq![
                            first,
                            ConstantPoolItemView::Unusable,
                        ]) + rest->value);
                    }
                }
            } else {
                proof {
                    let rest = spec_items(s, class_file.position(), (left - 1) as nat);
                    assert(items@.map_values(|item: ConstantPoolItem| item@) =~= before + seq![
                        first,
                    ]);
                    if rest is Done {
                        assert(before + (seq![first] + rest->value) =~= (before + seq![first])
                            + rest->value);
                    }
                }
            }
        }
        Ok(ConstantPool { items })
    }

    /// The string in slot `index`.
    pub fn utf8(&self, index: u16) -> (r: Result<&String, DecodeError>)
        ensures
            viewed(r) == spec_utf8(self@, index as int),
            index == 0 || index > self.items.len() ==> r is Err,
            r is Err ==> r.unwrap_err() == DecodeError::InvalidConstantReference,
    {
        if index == 0 || index as usize > self.items.len() {
            return Err(DecodeError::InvalidConstantReference);
        }
        match &self.items[index as usize - 1] {
            ConstantPoolItem::UTF8 { string } => Ok(string),
            _ => Err(DecodeError::InvalidConstantReference),
        }
    }

    /// The name of the class in slot `index`.
    pub fn class_name(&self, index: u16) -> (r: Result<&String, DecodeError>)
        ensures
            viewed(r) == spec_class_name(self@, index as int),
            index == 0 || index > self.items.len() ==> r is Err,
            r is Err ==> r.unwrap_err() == DecodeError::InvalidConstantReference,
    {
        if index == 0 || index as usize > self.items.len() {
            return Err(DecodeError::InvalidConstantReference);
        }
        match &self.items[index as usize - 1] {
            ConstantPoolItem::Class { name_index } => self.utf8(*name_index),
            _ => Err(DecodeError::InvalidConstantReference),
        }
    }

    /// The index of the first slot that holds the string `name`. Scans the pool from the front.
    pub fn utf8_item_index_by_name(&self, name: &str) -> (r: Option<usize>)
        ensures
            spec_utf8_index(self@, name@) == match r {
                Some(i) => Some(i as int),
                None => None,
            },
    {
        let wanted = name.to_owned();
        let ghost needle = ConstantPoolItemView::UTF8 { string: name@ };
        let length = self.items.len();
        let mut i: usize = 0;
        while i < length
            invariant
                i <= length,
                length == self.items.len(),
                wanted@ == name@,
                needle == (ConstantPoolItemView::UTF8 { string: name@ }),
                forall|j: int| 0 <= j < i ==> self@[j] != needle,
            decreases length - i,
        {
            match &self.items[i] {
                ConstantPoolItem::UTF8 { string } => {
                    if *string == wanted {
                        proof {
                            assert(self@[i as int] == needle);
                            self@.index_of_first_ensures(needle);
                        }
                        return Some(i + 1);
                    }
                },
                _ => {},
            }
            i = i + 1;
        }
        proof {
            self@.index_of_first_ensures(needle);
        }
        None
    }
}

} // verus!
