//! Attributes: the named, length-prefixed records attached to fields, methods and code.

use vstd::prelude::*;
use crate::constant_pool::{ConstantPool, ConstantPoolItemView, spec_u16_pair, spec_utf8};
use crate::error::DecodeError;
use crate::reader::{ClassFile, Parse, be_u16, be_u32, spec_bytes, spec_u16, spec_u32, viewed};

verus! {

/// One row of a method's exception table. A `catch_type` of 0 catches everything.
#[derive(Debug, Clone, Copy, PartialEq, Eq, Structural)]
pub struct ExceptionTable {
    pub start_pc: u16,
    pub end_pc: u16,
    pub handler_pc: u16,
    pub catch_type: u16,
}

/// One row of a line number table: the code from `start_pc` on belongs to `line_number`.
#[derive(Debug, Clone, Copy, PartialEq, Eq, Structural)]
pub struct LineNumberTable {
    pub start_pc: u16,
    pub line_number: u16,
}

/// A decoded attribute.
#[derive(Debug, PartialEq, Eq)]
pub enum AttributeItem {
    ConstantValue { constantvalue_index: u16 },
    Code {
        max_stack: u16,
        max_locals: u16,
        code: Vec<u8>,
        exception_table: Vec<ExceptionTable>,
        attributes: Attributes,
    },
    LineNumberTable { line_number_table: Vec<LineNumberTable> },
    /// An attribute of a name that is not decoded further: its name and its payload as it stood
    /// in the file.
    Opaque { name: String, bytes: Vec<u8> },
}

/// The attributes of one owner, in file order.
#[derive(Debug, PartialEq, Eq)]
pub struct Attributes {
    pub items: Vec<AttributeItem>,
}

/// An attribute as a mathematical value.
pub ghost enum AttributeItemView {
    ConstantValue { constantvalue_index: u16 },
    Code {
        max_stack: u16,
        max_locals: u16,
        code: Seq<u8>,
        exception_table: Seq<ExceptionTable>,
        attributes: Seq<AttributeItemView>,
    },
    LineNumberTable { line_number_table: Seq<LineNumberTable> },
    Opaque { name: Seq<char>, bytes: Seq<u8> },
}

impl AttributeItem {
    /// The mathematical value of this attribute.
    pub open spec fn model(&self) -> AttributeItemView
        decreases self,
    {
        match self {
            AttributeItem::ConstantValue {
                constantvalue_index,
            } => AttributeItemView::ConstantValue { constantvalue_index: *constantvalue_index },
            AttributeItem::Code {
                max_stack,
                max_locals,
                code,
                exception_table,
                attributes,
            } => AttributeItemView::Code {
                max_stack: *max_stack,
                max_locals: *max_locals,
                code: code@,
                exception_table: exception_table@,
                attributes: attributes.model(),
            },
            AttributeItem::LineNumberTable {
                line_number_table,
            } => AttributeItemView::LineNumberTable { line_number_table: line_number_table@ },
            AttributeItem::Opaque { name, bytes } => AttributeItemView::Opaque {
                name: name@,
                bytes: bytes@,
            },
        }
    }
}

impl Attributes {
    /// The mathematical values of these attributes, in order.
    pub open spec fn model(&self) -> Seq<AttributeItemView>
        decreases self,
    {
        Seq::new(
            self.items@.len(),
            |i: int|
                if 0 <= i < self.items@.len() {
                    self.items@[i].model()
                } else {
                    arbitrary()
                },
        )
    }
}

impl View for AttributeItem {
    type V = AttributeItemView;

    open spec fn view(&self) -> AttributeItemView {
        self.model()
    }
}

impl View for Attributes {
    type V = Seq<AttributeItemView>;

    open spec fn view(&self) -> Seq<AttributeItemView> {
        self.model()
    }
}

/// The views of a run of attributes.
pub open spec fn views(items: Seq<AttributeItem>) -> Seq<AttributeItemView> {
    Seq::new(items.len(), |i: int| items[i]@)
}

/// The number of bytes from `p` to the end of `s`.
pub open spec fn remaining(s: Seq<u8>, p: int) -> nat {
    if p <= s.len() {
        (s.len() - p) as nat
    } else {
        0
    }
}

/// Where a run of 16-bit reads that begins at `p` comes to a halt for want of bytes: the
/// position of the first of them that the source cannot serve.
pub open spec fn u16_run_stop(s: Seq<u8>, p: int) -> int {
    if 0 <= p <= s.len() {
        p + 2 * ((s.len() - p) / 2)
    } else {
        p
    }
}

/// The exception table row at `p`.
pub open spec fn exception_row_at(s: Seq<u8>, p: int) -> ExceptionTable {
    ExceptionTable {
        start_pc: be_u16(s, p),
        end_pc: be_u16(s, p + 2),
        handler_pc: be_u16(s, p + 4),
        catch_type: be_u16(s, p + 6),
    }
}

/// The line number table row at `p`.
pub open spec fn line_number_row_at(s: Seq<u8>, p: int) -> LineNumberTable {
    LineNumberTable { start_pc: be_u16(s, p), line_number: be_u16(s, p + 2) }
}

/// One exception table row: four 16-bit numbers.
pub open spec fn spec_exception_row(s: Seq<u8>, p: int) -> Parse<ExceptionTable> {
    if 0 <= p && p + 8 <= s.len() {
        Parse::Done { value: exception_row_at(s, p), end: p + 8 }
    } else {
        Parse::Failed { error: DecodeError::IoError, at: u16_run_stop(s, p) }
    }
}

/// `n` exception table rows from `p` on, each of four 16-bit numbers.
pub open spec fn spec_exception_rows(s: Seq<u8>, p: int, n: nat) -> Parse<Seq<ExceptionTable>> {
    if 0 <= p && p + 8 * n <= s.len() {
        Parse::Done {
            value: Seq::new(n, |i: int| exception_row_at(s, p + 8 * i)),
            end: p + 8 * n,
        }
    } else {
        Parse::Failed { error: DecodeError::IoError, at: u16_run_stop(s, p) }
    }
}

/// `n` line number table rows from `p` on, each of two 16-bit numbers.
pub open spec fn spec_line_number_rows(s: Seq<u8>, p: int, n: nat) -> Parse<Seq<LineNumberTable>> {
    if 0 <= p && p + 4 * n <= s.len() {
        Parse::Done {
            value: Seq::new(n, |i: int| line_number_row_at(s, p + 4 * i)),
            end: p + 4 * n,
        }
    } else {
        Parse::Failed { error: DecodeError::IoError, at: u16_run_stop(s, p) }
    }
}

/// The payload of a `ConstantValue` attribute: one index into the constant pool.
pub open spec fn spec_constant_value(s: Seq<u8>, p: int) -> Parse<AttributeItemView> {
    match spec_u16(s, p) {
        Parse::Failed { error, at } => Parse::Failed { error, at },
        Parse::Done { value: constantvalue_index, end } => Parse::Done {
            value: AttributeItemView::ConstantValue { constantvalue_index },
            end,
        },
    }
}

/// The payload of a `LineNumberTable` attribute: a count and that many rows.
pub open spec fn spec_line_number_table(s: Seq<u8>, p: int) -> Parse<AttributeItemView> {
    match spec_u16(s, p) {
        Parse::Failed { error, at } => Parse::Failed { error, at },
        Parse::Done { value: count, end } => match spec_line_number_rows(s, end, count as nat) {
            Parse::Failed { error, at } => Parse::Failed { error, at },
            Parse::Done { value: line_number_table, end } => Parse::Done {
                value: AttributeItemView::LineNumberTable { line_number_table },
                end,
            },
        },
    }
}

/// The payload of an attribute that is kept as it stands: the `length` bytes at `p`.
pub open spec fn spec_opaque(s: Seq<u8>, p: int, name: Seq<char>, length: u32) -> Parse<
    AttributeItemView,
> {
    match spec_bytes(s, p, length as int) {
        Parse::Failed { error, at } => Parse::Failed { error, at },
        Parse::Done { value: bytes, end } => Parse::Done {
            value: AttributeItemView::Opaque { name, bytes },
            end,
        },
    }
}

/// The position just past the attribute record that begins at `p`, as the length field of its
/// header has it.
pub open spec fn record_end(s: Seq<u8>, p: int) -> int {
    p + 6 + be_u32(s, p + 2)
}

/// The payload of a `Code` attribute: stack and locals limits, the instructions, the exception
/// table, and the attributes of the code itself.
pub open spec fn spec_code(
    s: Seq<u8>,
    p: int,
    pool: Seq<ConstantPoolItemView>,
) -> Parse<AttributeItemView>
    decreases remaining(s, p), 0nat,
{
    match spec_u16_pair(s, p) {
        Parse::Failed { error, at } => Parse::Failed { error, at },
        Parse::Done { value: (max_stack, max_locals), end } => match spec_u32(s, end) {
            Parse::Failed { error, at } => Parse::Failed { error, at },
            Parse::Done { value: code_length, end } => match spec_bytes(
                s,
                end,
                code_length as int,
            ) {
                Parse::Failed { error, at } => Parse::Failed { error, at },
                Parse::Done { value: code, end } => match spec_u16(s, end) {
                    Parse::Failed { error, at } => Parse::Failed { error, at },
                    Parse::Done { value: rows, end } => match spec_exception_rows(
                        s,
                        end,
                        rows as nat,
                    ) {
                        Parse::Failed { error, at } => Parse::Failed { error, at },
                        Parse::Done { value: exception_table, end } => match spec_attributes(
                            s,
                            end,
                            pool,
                        ) {
                            Parse::Failed { error, at } => Parse::Failed { error, at },
                            Parse::Done { value: attributes, end } => Parse::Done {
                                value: AttributeItemView::Code {
                                    max_stack,
                                    max_locals,
                                    code,
                                    exception_table,
                                    attributes,
                                },
                                end,
                            },
                        },
                    },
                },
            },
        },
    }
}

/// Whether attributes called `name` are decoded, not kept as they stand.
pub open spec fn is_known(name: Seq<char>) -> bool {
    name == "Code"@ || name == "ConstantValue"@ || name == "LineNumberTable"@
}

/// The payload at `p` of an attribute called `name` whose header declares `length` bytes:
/// decoded by the attribute's own rules where the name is a known one, kept as it stands
/// elsewhere.
pub open spec fn spec_payload(
    s: Seq<u8>,
    p: int,
    name: Seq<char>,
    length: u32,
    pool: Seq<ConstantPoolItemView>,
) -> Parse<AttributeItemView>
    decreases remaining(s, p), 1nat,
{
    if name == "Code"@ {
        spec_code(s, p, pool)
    } else if name == "ConstantValue"@ {
        spec_constant_value(s, p)
    } else if name == "LineNumberTable"@ {
        spec_line_number_table(s, p)
    } else {
        spec_opaque(s, p, name, length)
    }
}

/// The attribute record at `p`: the index of its name, the length of its payload, and the
/// payload. The payload's decoder must stop where the length says.
pub open spec fn spec_attribute(
    s: Seq<u8>,
    p: int,
    pool: Seq<ConstantPoolItemView>,
) -> Parse<AttributeItemView>
    decreases remaining(s, p), 0nat,
{
    match spec_u16(s, p) {
        Parse::Failed { error, at } => Parse::Failed { error, at },
        Parse::Done { value: name_index, end } => match spec_u32(s, end) {
            Parse::Failed { error, at } => Parse::Failed { error, at },
            Parse::Done { value: length, end: body } => match spec_utf8(pool, name_index as int) {
                Err(error) => Parse::Failed { error, at: body },
                Ok(name) => match spec_payload(s, body, name, length, pool) {
                    Parse::Failed { error, at } => Parse::Failed { error, at },
                    Parse::Done { value, end } => if end - body == length {
                        Parse::Done { value, end }
                    } else {
                        Parse::Failed {
                            error: DecodeError::AttributeLengthMismatch {
                                expected: length,
                                actual: (end - body) as u64,
                            },
                            at: end,
                        }
                    },
                },
            },
        },
    }
}

/// `n` attribute records in a row, the first of them at `p`.
pub open spec fn spec_attribute_list(
    s: Seq<u8>,
    p: int,
    n: nat,
    pool: Seq<ConstantPoolItemView>,
) -> Parse<Seq<AttributeItemView>>
    decreases remaining(s, p), n + 1,
{
    if n == 0 {
        Parse::Done { value: Seq::empty(), end: p }
    } else {
        match spec_attribute(s, p, pool) {
            Parse::Failed { error, at } => Parse::Failed { error, at },
            Parse::Done { value: first, .. } => spec_attribute_list(
                s,
                record_end(s, p),
                (n - 1) as nat,
                pool,
            ).after(seq![first]),
        }
    }
}

/// An attribute table: a count, then that many attribute records.
pub open spec fn spec_attributes(
    s: Seq<u8>,
    p: int,
    pool: Seq<ConstantPoolItemView>,
) -> Parse<Seq<AttributeItemView>>
    decreases remaining(s, p), 0nat,
{
    match spec_u16(s, p) {
        Parse::Failed { error, at } => Parse::Failed { error, at },
        Parse::Done { value: count, end } => spec_attribute_list(s, end, count as nat, pool),
    }
}

/// An attribute that decodes spans what its header declares: the record ends `length` bytes
/// after its six header bytes, within the source.
pub proof fn lemma_attribute_spans_declared_length(
    s: Seq<u8>,
    p: int,
    pool: Seq<ConstantPoolItemView>,
)
    requires
        spec_attribute(s, p, pool) is Done,
    ensures
        spec_attribute(s, p, pool)->end == record_end(s, p),
        0 <= p && p + 6 <= record_end(s, p),
{
}

/// Where the header of an attribute can be read and its name resolves, a payload whose decoder
/// stops elsewhere than the header declares makes the attribute fail with
/// `AttributeLengthMismatch`, which reports the declared and the decoded length.
pub proof fn lemma_length_mismatch_fails(s: Seq<u8>, p: int, pool: Seq<ConstantPoolItemView>)
    requires
        0 <= p && p + 6 <= s.len(),
        spec_utf8(pool, be_u16(s, p) as int) is Ok,
        spec_payload(
            s,
            p + 6,
            spec_utf8(pool, be_u16(s, p) as int).unwrap(),
            be_u32(s, p + 2),
            pool,
        ) is Done,
    ensures
        ({
            let length = be_u32(s, p + 2);
            let name = spec_utf8(pool, be_u16(s, p) as int).unwrap();
            let end = spec_payload(s, p + 6, name, length, pool)->end;
            end != record_end(s, p) ==> spec_attribute(s, p, pool) == (Parse::Failed::<
                AttributeItemView,
            > {
                error: DecodeError::AttributeLengthMismatch {
                    expected: length,
                    actual: (end - (p + 6)) as u64,
                },
                at: end,
            })
        }),
{
}

/// An attribute of a name that is not a known one decodes whenever its payload lies within
/// the source. It is kept as `Opaque`, with its name and with its payload byte for byte, and
/// the attributes after it are decoded from the end of its record as if it had been known.
pub proof fn lemma_unknown_attribute_is_kept(
    s: Seq<u8>,
    p: int,
    n: nat,
    pool: Seq<ConstantPoolItemView>,
)
    requires
        0 <= p && p + 6 <= s.len(),
        record_end(s, p) <= s.len(),
        spec_utf8(pool, be_u16(s, p) as int) is Ok,
        !is_known(spec_utf8(pool, be_u16(s, p) as int).unwrap()),
    ensures
        spec_attribute(s, p, pool) == (Parse::Done {
            value: AttributeItemView::Opaque {
                name: spec_utf8(pool, be_u16(s, p) as int).unwrap(),
                bytes: s.subrange(p + 6, record_end(s, p)),
            },
            end: record_end(s, p),
        }),
        spec_attribute_list(s, p, n + 1, pool) == spec_attribute_list(
            s,
            record_end(s, p),
            n,
            pool,
        ).after(
            seq![
                AttributeItemView::Opaque {
                    name: spec_utf8(pool, be_u16(s, p) as int).unwrap(),
                    bytes: s.subrange(p + 6, record_end(s, p)),
                },
            ],
        ),
{
}

impl ExceptionTable {
    /// Reads one row of an exception table.
    pub fn new(class_file: &mut ClassFile) -> (r: Result<ExceptionTable, DecodeError>)
        ensures
            final(class_file).follows(
                old(class_file),
                r,
                spec_exception_row(old(class_file).source(), old(class_file).position()),
            ),
    {
        let start_pc = class_file.read_u16()?;
        let end_pc = class_file.read_u16()?;
        let handler_pc = class_file.read_u16()?;
        let catch_type = class_file.read_u16()?;
        Ok(ExceptionTable { start_pc, end_pc, handler_pc, catch_type })
    }
}

/// Whether `name` reads `label`.
fn is_named(name: &String, label: &str) -> (r: bool)
    ensures
        r == (name@ == label@),
{
    let owned = label.to_owned();
    *name == owned
}

/// Reads the rows of an exception table.
fn read_exception_rows(class_file: &mut ClassFile, n: u16) -> (r: Result<
    Vec<ExceptionTable>,
    DecodeError,
>)
    ensures
        final(class_file).follows(
            old(class_file),
            viewed(r),
            spec_exception_rows(old(class_file).source(), old(class_file).position(), n as nat),
        ),
{
    let ghost s = class_file.source();
    let start = class_file.offset();
    let mut rows: Vec<ExceptionTable> = Vec::new();
    let mut i: u16 = 0;
    while i < n
        invariant
            i <= n,
            class_file.source() == s,
            s == old(class_file).source(),
            start == old(class_file).position(),
            class_file.position() == start + 8 * i,
            class_file.position() <= s.len(),
            rows@ =~= Seq::new(i as nat, |k: int| exception_row_at(s, start + 8 * k)),
        decreases n - i,
    {
        let row = ExceptionTable::new(class_file)?;
        rows.push(row);
        i = i + 1;
    }
    Ok(rows)
}

/// Reads the payload of a `LineNumberTable` attribute.
pub fn read_line_number_table(class_file: &mut ClassFile) -> (r: Result<
    AttributeItem,
    DecodeError,
>)
    ensures
        final(class_file).follows(
            old(class_file),
            viewed(r),
            spec_line_number_table(old(class_file).source(), old(class_file).position()),
        ),
{
    let length = class_file.read_u16()?;
    let ghost s = class_file.source();
    let start = class_file.offset();
    let mut line_number_table: Vec<LineNumberTable> = Vec::new();
    let mut i: u16 = 0;
    while i < length
        invariant
            i <= length,
            class_file.source() == s,
            s == old(class_file).source(),
            spec_u16(s, old(class_file).position()) == (Parse::Done {
                value: length,
                end: start as int,
            }),
            class_file.position() == start + 4 * i,
            class_file.position() <= s.len(),
            line_number_table@ =~= Seq::new(i as nat, |k: int| line_number_row_at(s, start + 4 * k)),
        decreases length - i,
    {
        let start_pc = class_file.read_u16()?;
        let line_number = class_file.read_u16()?;
        line_number_table.push(LineNumberTable { start_pc, line_number });
        i = i + 1;
    }
    Ok(AttributeItem::LineNumberTable { line_number_table })
}

/// Reads the payload of a `Code` attribute.
pub fn read_code(class_file: &mut ClassFile, constant_pool: &ConstantPool) -> (r: Result<
    AttributeItem,
    DecodeError,
>)
    ensures
        final(class_file).follows(
            old(class_file),
            viewed(r),
            spec_code(old(class_file).source(), old(class_file).position(), constant_pool@),
        ),
    decreases old(class_file).left(), 0nat,
{
    let max_stack = class_file.read_u16()?;
    let max_locals = class_file.read_u16()?;
    let code_length = class_file.read_u32()?;
    let code = class_file.read_bytes(code_length as usize)?;
    let exception_table_length = class_file.read_u16()?;
    let exception_table = read_exception_rows(class_file, exception_table_length)?;
    let attributes = Attributes::new(class_file, constant_pool)?;
    Ok(AttributeItem::Code { max_stack, max_locals, code, exception_table, attributes })
}

impl AttributeItem {
    /// Reads one attribute record: the header, then the payload as the attribute's name asks,
    /// and checks that the payload ended where the header said it would.
    pub fn new(class_file: &mut ClassFile, constant_pool: &ConstantPool) -> (r: Result<
        AttributeItem,
        DecodeError,
    >)
        ensures
            final(class_file).follows(
                old(class_file),
                viewed(r),
                spec_attribute(
                    old(class_file).source(),
                    old(class_file).position(),
                    constant_pool@,
                ),
            ),
        decreases old(class_file).left(), 0nat,
    {
        let attribute_name_index = class_file.read_u16()?;
        let attribute_length = class_file.read_u32()?;
        let name = constant_pool.utf8(attribute_name_index)?;
        let body = class_file.offset();
        let attribute = if is_named(name, "Code") {
            read_code(class_file, constant_pool)?
        } else if is_named(name, "ConstantValue") {
            AttributeItem::ConstantValue { constantvalue_index: class_file.read_u16()? }
        } else if is_named(name, "LineNumberTable") {
            read_line_number_table(class_file)?
        } else {
            let bytes = class_file.read_bytes(attribute_length as usize)?;
            AttributeItem::Opaque { name: name.clone(), bytes }
        };
        let consumed = class_file.offset() - body;
        if consumed as u64 != attribute_length as u64 {
            return Err(
                DecodeError::AttributeLengthMismatch {
                    expected: attribute_length,
                    actual: consumed as u64,
                },
            );
        }
        Ok(attribute)
    }
}

impl Attributes {
    /// Reads an attribute table: a count, then that many attribute records.
    pub fn new(class_file: &mut ClassFile, constant_pool: &ConstantPool) -> (r: Result<
        Attributes,
        DecodeError,
    >)
        ensures
            final(class_file).follows(
                old(class_file),
                viewed(r),
                spec_attributes(
                    old(class_file).source(),
                    old(class_file).position(),
                    constant_pool@,
                ),
            ),
        decreases old(class_file).left(), 1nat,
    {
        let count = class_file.read_u16()?;
        let ghost s = class_file.source();
        let ghost start = class_file.position();
        let mut items: Vec<AttributeItem> = Vec::new();
        while items.len() < count as usize
            invariant
                items.len() <= count,
                class_file.source() == s,
                s == old(class_file).source(),
                start == old(class_file).position() + 2,
                start <= class_file.position() <= s.len(),
                spec_attributes(s, old(class_file).position(), constant_pool@)
                    == spec_attribute_list(s, start, count as nat, constant_pool@),
                spec_attribute_list(s, start, count as nat, constant_pool@) == spec_attribute_list(
                    s,
                    class_file.position(),
                    (count - items.len()) as nat,
                    constant_pool@,
                ).after(views(items@)),
            decreases count - items.len(),
        {
            let ghost before = views(items@);
            let ghost here = class_file.position();
            let ghost left = (count - items.len()) as nat;
            let item = AttributeItem::new(class_file, constant_pool)?;
            let ghost first = item@;
            items.push(item);
            proof {
                let rest = spec_attribute_list(s, record_end(s, here), (left - 1) as nat, constant_pool@);
                assert(class_file.position() == record_end(s, here));
                assert(views(items@) =~= before + seq![first]);
                if rest is Done {
                    assert(before + (seq![first] + rest->value) =~= (before + seq![first])
                        + rest->value);
                }
            }
        }
        proof {
            assert(views(items@) =~= (Attributes { items }).model());
        }
        Ok(Attributes { items })
    }
}

} // verus!
