//! A source cut short: what decoding makes of the first bytes of a source.
//!
//! Every decoder reads forward and decides only on what it has read. So on a source that is cut
//! off at some length, it does what it does on the whole source until a read asks for bytes
//! past the cut; that read fails with `IoError`.

use vstd::prelude::*;
use crate::attributes::{
    exception_row_at,
    line_number_row_at,
    record_end,
    spec_attribute,
    spec_attribute_list,
    spec_attributes,
    spec_code,
    spec_exception_rows,
    spec_line_number_rows,
    spec_line_number_table,
    spec_payload,
};
use crate::class::{
    Version,
    spec_class,
    spec_class_body,
    spec_interfaces,
    spec_member,
    spec_member_list,
    spec_members,
};
use crate::constant_pool::{
    ConstantPoolItemView,
    lemma_items_fill_slots,
    slots_of,
    spec_item,
    spec_items,
    spec_pool,
    spec_u16_pair,
    spec_utf8,
    spec_utf8_item,
    takes_two_slots,
    unmodeled_width,
};
use crate::error::DecodeError;
use crate::reader::{Parse, be_u16, be_u32, spec_bytes, spec_u16, spec_u32, spec_u8};

verus! {

/// How decoding from `p` on a source cut off at `m` relates to decoding from `p` on the whole
/// source of `len` bytes, where that succeeds: a value that ends at or before the cut is
/// decoded just the same, and one that reaches past it is not decoded; decoding fails with
/// `IoError`, at a position between `p` and the cut.
pub open spec fn cut_short<T>(whole: Parse<T>, cut: Parse<T>, p: int, m: int, len: int) -> bool {
    whole matches Parse::Done { value, end } ==> {
        &&& p <= end <= len
        &&& if end <= m {
            cut == whole
        } else {
            cut matches Parse::Failed { error, at } && error == DecodeError::IoError && p <= at
                <= m
        }
    }
}

proof fn lemma_cut_u8(s: Seq<u8>, p: int, m: int)
    requires
        0 <= p <= m <= s.len(),
    ensures
        cut_short(spec_u8(s, p), spec_u8(s.take(m), p), p, m, s.len() as int),
{
}

proof fn lemma_cut_u16(s: Seq<u8>, p: int, m: int)
    requires
        0 <= p <= m <= s.len(),
    ensures
        cut_short(spec_u16(s, p), spec_u16(s.take(m), p), p, m, s.len() as int),
{
}

proof fn lemma_cut_u32(s: Seq<u8>, p: int, m: int)
    requires
        0 <= p <= m <= s.len(),
    ensures
        cut_short(spec_u32(s, p), spec_u32(s.take(m), p), p, m, s.len() as int),
{
}

proof fn lemma_cut_bytes(s: Seq<u8>, p: int, n: int, m: int)
    requires
        0 <= p <= m <= s.len(),
    ensures
        cut_short(spec_bytes(s, p, n), spec_bytes(s.take(m), p, n), p, m, s.len() as int),
{
    if 0 <= n && p + n <= m {
        assert(s.take(m).subrange(p, p + n) =~= s.subrange(p, p + n));
    }
}

proof fn lemma_cut_u16_pair(s: Seq<u8>, p: int, m: int)
    requires
        0 <= p <= m <= s.len(),
    ensures
        cut_short(spec_u16_pair(s, p), spec_u16_pair(s.take(m), p), p, m, s.len() as int),
{
}

proof fn lemma_cut_utf8_item(s: Seq<u8>, p: int, m: int)
    requires
        0 <= p <= m <= s.len(),
    ensures
        cut_short(spec_utf8_item(s, p), spec_utf8_item(s.take(m), p), p, m, s.len() as int),
{
    lemma_cut_u16(s, p, m);
    if p + 2 <= m {
        lemma_cut_bytes(s, p + 2, be_u16(s, p) as int, m);
    }
}

proof fn lemma_cut_item(s: Seq<u8>, p: int, m: int)
    requires
        0 <= p <= m <= s.len(),
    ensures
        cut_short(spec_item(s, p), spec_item(s.take(m), p), p, m, s.len() as int),
{
    lemma_cut_u8(s, p, m);
    if p + 1 <= m {
        let tag = s[p];
        lemma_cut_utf8_item(s, p + 1, m);
        lemma_cut_u16(s, p + 1, m);
        lemma_cut_u16_pair(s, p + 1, m);
        lemma_cut_u8(s, p + 1, m);
        if p + 2 <= m {
            lemma_cut_u16(s, p + 2, m);
        }
        if unmodeled_width(tag) is Some {
            lemma_cut_bytes(s, p + 1, unmodeled_width(tag).unwrap(), m);
        }
    }
}

proof fn lemma_cut_items(s: Seq<u8>, p: int, slots: nat, m: int)
    requires
        0 <= p <= m <= s.len(),
    ensures
        cut_short(
            spec_items(s, p, slots),
            spec_items(s.take(m), p, slots),
            p,
            m,
            s.len() as int,
        ),
    decreases slots,
{
    if slots > 0 {
        lemma_cut_item(s, p, m);
        if let Parse::Done { value: item, end } = spec_item(s, p) {
            let next = if takes_two_slots(item) && slots >= 2 {
                (slots - 2) as nat
            } else {
                (slots - 1) as nat
            };
            if end <= m {
                lemma_cut_items(s, end, next, m);
            } else {
                lemma_items_fill_slots(s, end, next);
            }
        }
    }
}

proof fn lemma_cut_pool(s: Seq<u8>, p: int, m: int)
    requires
        0 <= p <= m <= s.len(),
    ensures
        cut_short(spec_pool(s, p), spec_pool(s.take(m), p), p, m, s.len() as int),
{
    lemma_cut_u16(s, p, m);
    if p + 2 <= m {
        lemma_cut_items(s, p + 2, slots_of(be_u16(s, p)), m);
    } else if p + 2 <= s.len() {
        lemma_items_fill_slots(s, p + 2, slots_of(be_u16(s, p)));
    }
}

proof fn lemma_cut_exception_rows(s: Seq<u8>, p: int, n: nat, m: int)
    requires
        0 <= p <= m <= s.len(),
    ensures
        cut_short(
            spec_exception_rows(s, p, n),
            spec_exception_rows(s.take(m), p, n),
            p,
            m,
            s.len() as int,
        ),
{
    if p + 8 * n <= m {
        assert(Seq::new(n, |i: int| exception_row_at(s.take(m), p + 8 * i)) =~= Seq::new(
            n,
            |i: int| exception_row_at(s, p + 8 * i),
        ));
    }
}

proof fn lemma_cut_line_number_rows(s: Seq<u8>, p: int, n: nat, m: int)
    requires
        0 <= p <= m <= s.len(),
    ensures
        cut_short(
            spec_line_number_rows(s, p, n),
            spec_line_number_rows(s.take(m), p, n),
            p,
            m,
            s.len() as int,
        ),
{
    if p + 4 * n <= m {
        assert(Seq::new(n, |i: int| line_number_row_at(s.take(m), p + 4 * i)) =~= Seq::new(
            n,
            |i: int| line_number_row_at(s, p + 4 * i),
        ));
    }
}

proof fn lemma_cut_line_number_table(s: Seq<u8>, p: int, m: int)
    requires
        0 <= p <= m <= s.len(),
    ensures
        cut_short(
            spec_line_number_table(s, p),
            spec_line_number_table(s.take(m), p),
            p,
            m,
            s.len() as int,
        ),
{
    lemma_cut_u16(s, p, m);
    if p + 2 <= m {
        lemma_cut_line_number_rows(s, p + 2, be_u16(s, p) as nat, m);
    }
}

proof fn lemma_cut_code(s: Seq<u8>, p: int, pool: Seq<ConstantPoolItemView>, m: int)
    requires
        0 <= p <= m <= s.len(),
    ensures
        cut_short(spec_code(s, p, pool), spec_code(s.take(m), p, pool), p, m, s.len() as int),
    decreases s.len() - p, 0nat,
{
    lemma_cut_u16_pair(s, p, m);
    if p + 4 <= s.len() {
        let limit = if p + 4 <= m { m } else { s.len() as int };
        assert(s.take(s.len() as int) =~= s);
        lemma_cut_u32(s, p + 4, limit);
        if let Parse::Done { value: code_length, end: at_code } = spec_u32(s, p + 4) {
            let limit = if at_code <= m { m } else { s.len() as int };
            lemma_cut_bytes(s, at_code, code_length as int, limit);
            if let Parse::Done { value: code, end: at_count } = spec_bytes(
                s,
                at_code,
                code_length as int,
            ) {
                let limit = if at_count <= m { m } else { s.len() as int };
                lemma_cut_u16(s, at_count, limit);
                if let Parse::Done { value: rows, end: at_rows } = spec_u16(s, at_count) {
                    let limit = if at_rows <= m { m } else { s.len() as int };
                    lemma_cut_exception_rows(s, at_rows, rows as nat, limit);
                    if let Parse::Done { value: table, end: at_attributes } = spec_exception_rows(
                        s,
                        at_rows,
                        rows as nat,
                    ) {
                        let limit = if at_attributes <= m { m } else { s.len() as int };
                        lemma_cut_attributes(s, at_attributes, pool, limit);
                    }
                }
            }
        }
    }
}

proof fn lemma_cut_payload(
    s: Seq<u8>,
    p: int,
    name: Seq<char>,
    length: u32,
    pool: Seq<ConstantPoolItemView>,
    m: int,
)
    requires
        0 <= p <= m <= s.len(),
    ensures
        cut_short(
            spec_payload(s, p, name, length, pool),
            spec_payload(s.take(m), p, name, length, pool),
            p,
            m,
            s.len() as int,
        ),
    decreases s.len() - p, 1nat,
{
    if name == "Code"@ {
        lemma_cut_code(s, p, pool, m);
    } else if name == "ConstantValue"@ {
        lemma_cut_u16(s, p, m);
    } else if name == "LineNumberTable"@ {
        lemma_cut_line_number_table(s, p, m);
    } else {
        lemma_cut_bytes(s, p, length as int, m);
    }
}

proof fn lemma_cut_attribute(s: Seq<u8>, p: int, pool: Seq<ConstantPoolItemView>, m: int)
    requires
        0 <= p <= m <= s.len(),
    ensures
        cut_short(
            spec_attribute(s, p, pool),
            spec_attribute(s.take(m), p, pool),
            p,
            m,
            s.len() as int,
        ),
    decreases s.len() - p, 2nat,
{
    lemma_cut_u16(s, p, m);
    if p + 6 <= s.len() {
        let limit = if p + 6 <= m { m } else { s.len() as int };
        assert(s.take(s.len() as int) =~= s);
        if p + 2 <= m {
            lemma_cut_u32(s, p + 2, m);
        }
        if let Ok(name) = spec_utf8(pool, be_u16(s, p) as int) {
            lemma_cut_payload(s, p + 6, name, be_u32(s, p + 2), pool, limit);
        }
    }
}

proof fn lemma_cut_attribute_list(
    s: Seq<u8>,
    p: int,
    n: nat,
    pool: Seq<ConstantPoolItemView>,
    m: int,
)
    requires
        0 <= p <= m <= s.len(),
    ensures
        cut_short(
            spec_attribute_list(s, p, n, pool),
            spec_attribute_list(s.take(m), p, n, pool),
            p,
            m,
            s.len() as int,
        ),
    decreases s.len() - p, 3 + n,
{
    if n > 0 {
        lemma_cut_attribute(s, p, pool, m);
        if let Parse::Done { value: first, end } = spec_attribute(s, p, pool) {
            assert(end == record_end(s, p));
            let limit = if end <= m { m } else { s.len() as int };
            assert(s.take(s.len() as int) =~= s);
            lemma_cut_attribute_list(s, end, (n - 1) as nat, pool, limit);
        }
    }
}

proof fn lemma_cut_attributes(s: Seq<u8>, p: int, pool: Seq<ConstantPoolItemView>, m: int)
    requires
        0 <= p <= m <= s.len(),
    ensures
        cut_short(
            spec_attributes(s, p, pool),
            spec_attributes(s.take(m), p, pool),
            p,
            m,
            s.len() as int,
        ),
    decreases s.len() - p, 0nat,
{
    lemma_cut_u16(s, p, m);
    if p + 2 <= s.len() {
        let limit = if p + 2 <= m { m } else { s.len() as int };
        assert(s.take(s.len() as int) =~= s);
        lemma_cut_attribute_list(s, p + 2, be_u16(s, p) as nat, pool, limit);
    }
}

proof fn lemma_cut_interfaces(s: Seq<u8>, p: int, m: int)
    requires
        0 <= p <= m <= s.len(),
    ensures
        cut_short(spec_interfaces(s, p), spec_interfaces(s.take(m), p), p, m, s.len() as int),
{
    lemma_cut_u16(s, p, m);
    let n = be_u16(s, p) as nat;
    if p + 2 + 2 * n <= m {
        assert(Seq::new(n, |i: int| be_u16(s.take(m), p + 2 + 2 * i)) =~= Seq::new(
            n,
            |i: int| be_u16(s, p + 2 + 2 * i),
        ));
    }
}

proof fn lemma_cut_member(s: Seq<u8>, p: int, pool: Seq<ConstantPoolItemView>, m: int)
    requires
        0 <= p <= m <= s.len(),
    ensures
        cut_short(spec_member(s, p, pool), spec_member(s.take(m), p, pool), p, m, s.len() as int),
{
    lemma_cut_u16(s, p, m);
    if p + 2 <= m {
        lemma_cut_u16_pair(s, p + 2, m);
    }
    if p + 6 <= s.len() {
        let limit = if p + 6 <= m { m } else { s.len() as int };
        assert(s.take(s.len() as int) =~= s);
        lemma_cut_attributes(s, p + 6, pool, limit);
    }
}

proof fn lemma_cut_member_list(
    s: Seq<u8>,
    p: int,
    n: nat,
    pool: Seq<ConstantPoolItemView>,
    m: int,
)
    requires
        0 <= p <= m <= s.len(),
    ensures
        cut_short(
            spec_member_list(s, p, n, pool),
            spec_member_list(s.take(m), p, n, pool),
            p,
            m,
            s.len() as int,
        ),
    decreases n,
{
    if n > 0 {
        lemma_cut_member(s, p, pool, m);
        if let Parse::Done { value: first, end } = spec_member(s, p, pool) {
            let limit = if end <= m { m } else { s.len() as int };
            assert(s.take(s.len() as int) =~= s);
            lemma_cut_member_list(s, end, (n - 1) as nat, pool, limit);
        }
    }
}

proof fn lemma_cut_members(s: Seq<u8>, p: int, pool: Seq<ConstantPoolItemView>, m: int)
    requires
        0 <= p <= m <= s.len(),
    ensures
        cut_short(
            spec_members(s, p, pool),
            spec_members(s.take(m), p, pool),
            p,
            m,
            s.len() as int,
        ),
{
    lemma_cut_u16(s, p, m);
    if p + 2 <= s.len() {
        let limit = if p + 2 <= m { m } else { s.len() as int };
        assert(s.take(s.len() as int) =~= s);
        lemma_cut_member_list(s, p + 2, be_u16(s, p) as nat, pool, limit);
    }
}

proof fn lemma_cut_class_body(
    s: Seq<u8>,
    p: int,
    version: Version,
    pool: Seq<ConstantPoolItemView>,
    m: int,
)
    requires
        0 <= p <= m <= s.len(),
    ensures
        cut_short(
            spec_class_body(s, p, version, pool),
            spec_class_body(s.take(m), p, version, pool),
            p,
            m,
            s.len() as int,
        ),
{
    assert(s.take(s.len() as int) =~= s);
    lemma_cut_u16(s, p, m);
    if p + 2 <= m {
        lemma_cut_u16_pair(s, p + 2, m);
    }
    if p + 6 <= s.len() {
        let limit = if p + 6 <= m { m } else { s.len() as int };
        lemma_cut_interfaces(s, p + 6, limit);
        if let Parse::Done { value: interfaces, end: at_fields } = spec_interfaces(s, p + 6) {
            let limit = if at_fields <= m { m } else { s.len() as int };
            lemma_cut_members(s, at_fields, pool, limit);
            if let Parse::Done { value: fields, end: at_methods } = spec_members(
                s,
                at_fields,
                pool,
            ) {
                let limit = if at_methods <= m { m } else { s.len() as int };
                lemma_cut_members(s, at_methods, pool, limit);
            }
        }
    }
}

/// What decoding a class makes of a source that is cut off at `m`, where decoding the class
/// from the whole source succeeds.
pub proof fn lemma_cut_class(s: Seq<u8>, p: int, m: int)
    requires
        0 <= p <= m <= s.len(),
    ensures
        cut_short(spec_class(s, p), spec_class(s.take(m), p), p, m, s.len() as int),
{
    assert(s.take(s.len() as int) =~= s);
    lemma_cut_u32(s, p, m);
    if p + 4 <= m {
        lemma_cut_u16_pair(s, p + 4, m);
    }
    if p + 8 <= s.len() {
        let limit = if p + 8 <= m { m } else { s.len() as int };
        lemma_cut_pool(s, p + 8, limit);
        if let Parse::Done { value: pool, end } = spec_pool(s, p + 8) {
            let limit = if end <= m { m } else { s.len() as int };
            lemma_cut_class_body(
                s,
                end,
                Version { minor: be_u16(s, p + 4), major: be_u16(s, p + 6) },
                pool,
                limit,
            );
        }
    }
}

/// A class file that decodes no longer decodes when it is cut off anywhere before its end:
/// decoding then fails with `IoError`, and the cursor stops at or before the cut, at the read
/// that found too few bytes.
pub proof fn lemma_truncated_file_fails(s: Seq<u8>, p: int, m: int)
    requires
        spec_class(s, p) is Done,
        p <= m < spec_class(s, p)->end,
    ensures
        m < s.len(),
        spec_class(s.take(m), p) matches Parse::Failed { error, at } && error
            == DecodeError::IoError && p <= at <= m,
{
    lemma_cut_class(s, p, s.len() as int);
    lemma_cut_class(s, p, m);
}

/// Bytes after the end of a class have no part in its decoding: a class that decodes from a
/// source decodes to the same value from any prefix of the source that holds the class whole.
pub proof fn lemma_trailing_bytes_ignored(s: Seq<u8>, p: int, m: int)
    requires
        spec_class(s, p) is Done,
        spec_class(s, p)->end <= m <= s.len(),
    ensures
        spec_class(s.take(m), p) == spec_class(s, p),
{
    lemma_cut_class(s, p, s.len() as int);
    lemma_cut_class(s, p, m);
}

} // verus!
