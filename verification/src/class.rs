//! The class file as a whole: header, constant pool, interfaces, fields and methods, and the
//! queries on the decoded class.

use vstd::prelude::*;
use crate::attributes::{AttributeItem, AttributeItemView, Attributes, spec_attributes, u16_run_stop};
use crate::constant_pool::{
    ConstantPool,
    ConstantPoolItemView,
    spec_class_name,
    spec_pool,
    spec_u16_pair,
    spec_utf8_index,
};
use crate::error::DecodeError;
use crate::reader::{ClassFile, Parse, be_u16, be_u32, spec_u16, spec_u32, viewed};

verus! {

/// The number that every class file begins with.
pub const MAGIC: u32 = 0xCAFEBABE;

/// The version of the class file format that a file was written for.
#[derive(Debug, Clone, Copy, PartialEq, Eq, Structural)]
pub struct Version {
    pub minor: u16,
    pub major: u16,
}

/// A field or a method: its access flags, the pool indices of its name and of its descriptor,
/// and its attributes.
#[derive(Debug, PartialEq, Eq)]
pub struct FieldOrMethodItem {
    pub access_flags: u16,
    pub name_index: u16,
    pub descriptor_index: u16,
    pub attributes: Attributes,
}

/// The fields of a class, or its methods, in file order.
#[derive(Debug, PartialEq, Eq)]
pub struct FieldOrMethods {
    pub items: Vec<FieldOrMethodItem>,
}

/// A decoded class file.
#[derive(Debug, PartialEq, Eq)]
pub struct Class {
    pub version: Version,
    pub constant_pool: ConstantPool,
    pub access_flags: u16,
    pub this_class: u16,
    pub super_class: u16,
    pub interfaces: Vec<u16>,
    pub fields: FieldOrMethods,
    pub methods: FieldOrMethods,
}

/// A field or a method as a mathematical value.
pub ghost struct FieldOrMethodItemView {
    pub access_flags: u16,
    pub name_index: u16,
    pub descriptor_index: u16,
    pub attributes: Seq<AttributeItemView>,
}

/// A class as a mathematical value.
pub ghost struct ClassView {
    pub version: Version,
    pub constant_pool: Seq<ConstantPoolItemView>,
    pub access_flags: u16,
    pub this_class: u16,
    pub super_class: u16,
    pub interfaces: Seq<u16>,
    pub fields: Seq<FieldOrMethodItemView>,
    pub methods: Seq<FieldOrMethodItemView>,
}

impl View for FieldOrMethodItem {
    type V = FieldOrMethodItemView;

    open spec fn view(&self) -> FieldOrMethodItemView {
        FieldOrMethodItemView {
            access_flags: self.access_flags,
            name_index: self.name_index,
            descriptor_index: self.descriptor_index,
            attributes: self.attributes@,
        }
    }
}

impl View for FieldOrMethods {
    type V = Seq<FieldOrMethodItemView>;

    open spec fn view(&self) -> Seq<FieldOrMethodItemView> {
        self.items@.map_values(|item: FieldOrMethodItem| item@)
    }
}

impl View for Class {
    type V = ClassView;

    open spec fn view(&self) -> ClassView {
        ClassView {
            version: self.version,
            constant_pool: self.constant_pool@,
            access_flags: self.access_flags,
            this_class: self.this_class,
            super_class: self.super_class,
            interfaces: self.interfaces@,
            fields: self.fields@,
            methods: self.methods@,
        }
    }
}

/// The version: the minor number, then the major one.
pub open spec fn spec_version(s: Seq<u8>, p: int) -> Parse<Version> {
    match spec_u16_pair(s, p) {
        Parse::Failed { error, at } => Parse::Failed { error, at },
        Parse::Done { value: (minor, major), end } => Parse::Done {
            value: Version { minor, major },
            end,
        },
    }
}

/// `n` interface indices from `p` on.
pub open spec fn spec_interface_list(s: Seq<u8>, p: int, n: nat) -> Parse<Seq<u16>> {
    if 0 <= p && p + 2 * n <= s.len() {
        Parse::Done { value: Seq::new(n, |i: int| be_u16(s, p + 2 * i)), end: p + 2 * n }
    } else {
        Parse::Failed { error: DecodeError::IoError, at: u16_run_stop(s, p) }
    }
}

/// The interfaces: a count, then that many indices of class constants.
pub open spec fn spec_interfaces(s: Seq<u8>, p: int) -> Parse<Seq<u16>> {
    match spec_u16(s, p) {
        Parse::Failed { error, at } => Parse::Failed { error, at },
        Parse::Done { value: count, end } => spec_interface_list(s, end, count as nat),
    }
}

/// One field or method record: access flags, name index, descriptor index, attribute table.
pub open spec fn spec_member(s: Seq<u8>, p: int, pool: Seq<ConstantPoolItemView>) -> Parse<
    FieldOrMethodItemView,
> {
    match spec_u16(s, p) {
        Parse::Failed { error, at } => Parse::Failed { error, at },
        Parse::Done { value: access_flags, end } => match spec_u16_pair(s, end) {
            Parse::Failed { error, at } => Parse::Failed { error, at },
            Parse::Done { value: (name_index, descriptor_index), end } => match spec_attributes(
                s,
                end,
                pool,
            ) {
                Parse::Failed { error, at } => Parse::Failed { error, at },
                Parse::Done { value: attributes, end } => Parse::Done {
                    value: FieldOrMethodItemView {
                        access_flags,
                        name_index,
                        descriptor_index,
                        attributes,
                    },
                    end,
                },
            },
        },
    }
}

/// `n` field or method records in a row, the first of them at `p`.
pub open spec fn spec_member_list(
    s: Seq<u8>,
    p: int,
    n: nat,
    pool: Seq<ConstantPoolItemView>,
) -> Parse<Seq<FieldOrMethodItemView>>
    decreases n,
{
    if n == 0 {
        Parse::Done { value: Seq::empty(), end: p }
    } else {
        match spec_member(s, p, pool) {
            Parse::Failed { error, at } => Parse::Failed { error, at },
            Parse::Done { value: first, end } => spec_member_list(s, end, (n - 1) as nat, pool).after(
                seq![first],
            ),
        }
    }
}

/// The field table or the method table: a count, then that many records.
pub open spec fn spec_members(s: Seq<u8>, p: int, pool: Seq<ConstantPoolItemView>) -> Parse<
    Seq<FieldOrMethodItemView>,
> {
    match spec_u16(s, p) {
        Parse::Failed { error, at } => Parse::Failed { error, at },
        Parse::Done { value: count, end } => spec_member_list(s, end, count as nat, pool),
    }
}

/// What follows the constant pool: access flags, this class, super class, interfaces, fields,
/// methods.
pub open spec fn spec_class_body(
    s: Seq<u8>,
    p: int,
    version: Version,
    pool: Seq<ConstantPoolItemView>,
) -> Parse<ClassView> {
    match spec_u16(s, p) {
        Parse::Failed { error, at } => Parse::Failed { error, at },
        Parse::Done { value: access_flags, end } => match spec_u16_pair(s, end) {
            Parse::Failed { error, at } => Parse::Failed { error, at },
            Parse::Done { value: (this_class, super_class), end } => match spec_interfaces(s, end) {
                Parse::Failed { error, at } => Parse::Failed { error, at },
                Parse::Done { value: interfaces, end } => match spec_members(s, end, pool) {
                    Parse::Failed { error, at } => Parse::Failed { error, at },
                    Parse::Done { value: fields, end } => match spec_members(s, end, pool) {
                        Parse::Failed { error, at } => Parse::Failed { error, at },
                        Parse::Done { value: methods, end } => Parse::Done {
                            value: ClassView {
                                version,
                                constant_pool: pool,
                                access_flags,
                                this_class,
                                super_class,
                                interfaces,
                                fields,
                                methods,
                            },
                            end,
                        },
                    },
                },
            },
        },
    }
}

/// The class file that begins at `p`: the magic number, the version, the constant pool, and
/// the rest, which refers to the pool.
pub open spec fn spec_class(s: Seq<u8>, p: int) -> Parse<ClassView> {
    match spec_u32(s, p) {
        Parse::Failed { error, at } => Parse::Failed { error, at },
        Parse::Done { value: magic, end } => if magic != MAGIC {
            Parse::Failed { error: DecodeError::MagicMismatch, at: end }
        } else {
            match spec_version(s, end) {
                Parse::Failed { error, at } => Parse::Failed { error, at },
                Parse::Done { value: version, end } => match spec_pool(s, end) {
                    Parse::Failed { error, at } => Parse::Failed { error, at },
                    Parse::Done { value: pool, end } => spec_class_body(s, end, version, pool),
                },
            }
        },
    }
}

/// A file that does not begin with the magic number fails with `MagicMismatch`, and the
/// cursor then stands just past those four bytes: nothing after them was read, and nothing
/// after them bears on the outcome.
pub proof fn lemma_wrong_magic(s: Seq<u8>, t: Seq<u8>, p: int)
    requires
        0 <= p,
        p + 4 <= s.len(),
        p + 4 <= t.len(),
        s.subrange(p, p + 4) == t.subrange(p, p + 4),
        be_u32(s, p) != MAGIC,
    ensures
        spec_class(s, p) == (Parse::Failed::<ClassView> {
            error: DecodeError::MagicMismatch,
            at: p + 4,
        }),
        spec_class(t, p) == spec_class(s, p),
{
    assert(forall|i: int| p <= i < p + 4 ==> s[i] == s.subrange(p, p + 4)[i - p]);
    assert(forall|i: int| p <= i < p + 4 ==> t[i] == t.subrange(p, p + 4)[i - p]);
}

impl Version {
    /// Reads the version.
    pub fn new(class_file: &mut ClassFile) -> (r: Result<Version, DecodeError>)
        ensures
            final(class_file).follows(
                old(class_file),
                r,
                spec_version(old(class_file).source(), old(class_file).position()),
            ),
    {
        let minor = class_file.read_u16()?;
        let major = class_file.read_u16()?;
        Ok(Version { minor, major })
    }
}

impl FieldOrMethodItem {
    /// Reads one field or method record.
    pub fn new(class_file: &mut ClassFile, constant_pool: &ConstantPool) -> (r: Result<
        FieldOrMethodItem,
        DecodeError,
    >)
        ensures
            final(class_file).follows(
                old(class_file),
                viewed(r),
                spec_member(old(class_file).source(), old(class_file).position(), constant_pool@),
            ),
    {
        let access_flags = class_file.read_u16()?;
        let name_index = class_file.read_u16()?;
        let descriptor_index = class_file.read_u16()?;
        let attributes = Attributes::new(class_file, constant_pool)?;
        Ok(FieldOrMethodItem { access_flags, name_index, descriptor_index, attributes })
    }
}

impl FieldOrMethods {
    /// Reads a field table or a method table.
    pub fn new(class_file: &mut ClassFile, constant_pool: &ConstantPool) -> (r: Result<
        FieldOrMethods,
        DecodeError,
    >)
        ensures
            final(class_file).follows(
                old(class_file),
                viewed(r),
                spec_members(old(class_file).source(), old(class_file).position(), constant_pool@),
            ),
    {
        let length = class_file.read_u16()?;
        let ghost s = class_file.source();
        let ghost start = class_file.position();
        let mut items: Vec<FieldOrMethodItem> = Vec::new();
        while items.len() < length as usize
            invariant
                items.len() <= length,
                class_file.source() == s,
                s == old(class_file).source(),
                old(class_file).position() <= class_file.position() <= s.len(),
                spec_members(s, old(class_file).position(), constant_pool@) == spec_member_list(
                    s,
                    start,
                    length as nat,
                    constant_pool@,
                ),
                spec_member_list(s, start, length as nat, constant_pool@) == spec_member_list(
                    s,
                    class_file.position(),
                    (length - items.len()) as nat,
                    constant_pool@,
                ).after(items@.map_values(|item: FieldOrMethodItem| item@)),
            decreases length - items.len(),
        {
            let ghost before = items@.map_values(|item: FieldOrMethodItem| item@);
            let ghost left = (length - items.len()) as nat;
            let item = FieldOrMethodItem::new(class_file, constant_pool)?;
            let ghost first = item@;
            items.push(item);
            proof {
                let rest = spec_member_list(
                    s,
                    class_file.position(),
                    (left - 1) as nat,
                    constant_pool@,
                );
                assert(items@.map_values(|item: FieldOrMethodItem| item@) =~= before + seq![first]);
                if rest is Done {
                    assert(before + (seq![first] + rest->value) =~= (before + seq![first])
                        + rest->value);
                }
            }
        }
        Ok(FieldOrMethods { items })
    }
}

/// Reads the interface indices: a count, then that many 16-bit numbers.
fn read_interfaces(class_file: &mut ClassFile) -> (r: Result<Vec<u16>, DecodeError>)
    ensures
        final(class_file).follows(
            old(class_file),
            viewed(r),
            spec_interfaces(old(class_file).source(), old(class_file).position()),
        ),
{
    let interfaces_count = class_file.read_u16()?;
    let ghost s = class_file.source();
    let start = class_file.offset();
    let mut interfaces: Vec<u16> = Vec::new();
    let mut i: u16 = 0;
    while i < interfaces_count
        invariant
            i <= interfaces_count,
            class_file.source() == s,
            s == old(class_file).source(),
            spec_u16(s, old(class_file).position()) == (Parse::Done {
                value: interfaces_count,
                end: start as int,
            }),
            class_file.position() == start + 2 * i,
            class_file.position() <= s.len(),
            interfaces@ =~= Seq::new(i as nat, |k: int| be_u16(s, start + 2 * k)),
        decreases interfaces_count - i,
    {
        let index = class_file.read_u16()?;
        interfaces.push(index);
        i = i + 1;
    }
    Ok(interfaces)
}

impl FieldOrMethods {
    /// The position of the first record whose name is in slot `index` of the pool.
    pub open spec fn spec_by_name_index(&self, index: int) -> Option<int> {
        self.items@.map_values(|item: FieldOrMethodItem| item.name_index as int).index_of_first(
            index,
        )
    }

    /// The first record whose name is in slot `index` of the pool.
    pub fn by_name_index(&self, index: usize) -> (r: Option<&FieldOrMethodItem>)
        ensures
            r == match self.spec_by_name_index(index as int) {
                Some(k) => Some(&self.items@[k]),
                None => None,
            },
    {
        let ghost names = self.items@.map_values(|item: FieldOrMethodItem| item.name_index as int);
        let mut i: usize = 0;
        while i < self.items.len()
            invariant
                i <= self.items.len(),
                names == self.items@.map_values(|item: FieldOrMethodItem| item.name_index as int),
                forall|j: int| 0 <= j < i ==> names[j] != index,
            decreases self.items.len() - i,
        {
            let method = &self.items[i];
            if method.name_index as usize == index {
                proof {
                    assert(names[i as int] == index);
                    names.index_of_first_ensures(index as int);
                }
                return Some(method);
            }
            i = i + 1;
        }
        proof {
            names.index_of_first_ensures(index as int);
        }
        None
    }
}

impl FieldOrMethodItem {
    /// The position of the first `Code` attribute among this record's attributes.
    pub open spec fn spec_code_position(&self) -> Option<int> {
        self.attributes.items@.map_values(|a: AttributeItem| a is Code).index_of_first(true)
    }

    /// The instructions of this record, if it has any: the raw bytes of its first `Code`
    /// attribute.
    pub open spec fn spec_code(&self) -> Option<&Vec<u8>> {
        match self.spec_code_position() {
            Some(k) => Some(&self.attributes.items@[k]->code),
            None => None,
        }
    }
}

impl Class {
    /// The position among the methods of the one called `name`: the first method whose name
    /// index is that of the first string constant that reads `name`.
    pub open spec fn spec_method_position(&self, name: Seq<char>) -> Option<int> {
        match spec_utf8_index(self.constant_pool@, name) {
            Some(index) => self.methods.spec_by_name_index(index),
            None => None,
        }
    }

    /// The name of this class.
    pub fn this_class_name(&self) -> (r: Result<&String, DecodeError>)
        ensures
            viewed(r) == spec_class_name(self.constant_pool@, self.this_class as int),
            self.this_class == 0 || self.this_class > self.constant_pool.items.len() ==> r is Err,
            r is Err ==> r.unwrap_err() == DecodeError::InvalidConstantReference,
    {
        self.constant_pool.class_name(self.this_class)
    }

    /// Whether this class names a super class. Only the root of the hierarchy names none.
    pub fn has_super_class(&self) -> (r: bool)
        ensures
            r == (self.super_class != 0),
    {
        self.super_class != 0
    }

    /// The name of the super class: `None` where the class names none, else what the constant
    /// pool gives for the super class index.
    pub fn super_class_name(&self) -> (r: Option<Result<&String, DecodeError>>)
        ensures
            r is None <==> self.super_class == 0,
            r is Some ==> viewed(r.unwrap()) == spec_class_name(
                self.constant_pool@,
                self.super_class as int,
            ),
            self.super_class > self.constant_pool.items.len() ==> r == Some(
                Err::<&String, DecodeError>(DecodeError::InvalidConstantReference),
            ),
    {
        if self.has_super_class() {
            Some(self.constant_pool.class_name(self.super_class))
        } else {
            None
        }
    }

    /// The method called `string`.
    pub fn field_or_method_by_name(&self, string: &str) -> (r: Option<&FieldOrMethodItem>)
        ensures
            r == match self.spec_method_position(string@) {
                Some(k) => Some(&self.methods.items@[k]),
                None => None,
            },
    {
        match self.constant_pool.utf8_item_index_by_name(string) {
            Some(index) => self.methods.by_name_index(index),
            None => None,
        }
    }

    /// The instructions of `method`: the raw bytes of its first `Code` attribute.
    pub fn code_of<'a>(&self, method: &'a FieldOrMethodItem) -> (r: Option<&'a Vec<u8>>)
        ensures
            r == method.spec_code(),
    {
        let ghost kinds = method.attributes.items@.map_values(|a: AttributeItem| a is Code);
        let mut i: usize = 0;
        while i < method.attributes.items.len()
            invariant
                i <= method.attributes.items.len(),
                kinds == method.attributes.items@.map_values(|a: AttributeItem| a is Code),
                forall|j: int| 0 <= j < i ==> !kinds[j],
            decreases method.attributes.items.len() - i,
        {
            match &method.attributes.items[i] {
                AttributeItem::Code { code, .. } => {
                    proof {
                        assert(kinds[i as int]);
                        kinds.index_of_first_ensures(true);
                    }
                    return Some(code);
                },
                _ => {},
            }
            i = i + 1;
        }
        proof {
            kinds.index_of_first_ensures(true);
        }
        None
    }

    /// The instructions of the method called `main`.
    pub fn main_func_code(&self) -> (r: Option<&Vec<u8>>)
        ensures
            r == match self.spec_method_position("main"@) {
                Some(k) => self.methods.items@[k].spec_code(),
                None => None,
            },
    {
        match self.field_or_method_by_name("main") {
            Some(method) => self.code_of(method),
            None => None,
        }
    }
}

/// Decodes a class file from its bytes.
pub fn decode(bytes: Vec<u8>) -> (r: Result<Class, DecodeError>)
    ensures
        viewed(r) == match spec_class(bytes@, 0) {
            Parse::Done { value, .. } => Ok::<ClassView, DecodeError>(value),
            Parse::Failed { error, .. } => Err::<ClassView, DecodeError>(error),
        },
{
    let mut class_file = ClassFile::new(bytes);
    class_file.read_class()
}

impl ClassFile {
    /// Decodes the class file that begins at the cursor. On success the whole class is
    /// returned; on the first fault decoding stops there and the fault is returned.
    pub fn read_class(&mut self) -> (r: Result<Class, DecodeError>)
        ensures
            final(self).follows(
                old(self),
                viewed(r),
                spec_class(old(self).source(), old(self).position()),
            ),
    {
        let magic = self.read_u32()?;
        if magic != MAGIC {
            return Err(DecodeError::MagicMismatch);
        }
        let version = Version::new(self)?;
        let constant_pool = ConstantPool::new(self)?;
        let access_flags = self.read_u16()?;
        let this_class = self.read_u16()?;
        let super_class = self.read_u16()?;
        let interfaces = read_interfaces(self)?;
        let fields = FieldOrMethods::new(self, &constant_pool)?;
        let methods = FieldOrMethods::new(self, &constant_pool)?;
        Ok(
            Class {
                version,
                constant_pool,
                access_flags,
                this_class,
                super_class,
                interfaces,
                fields,
                methods,
            },
        )
    }
}

} // verus!
