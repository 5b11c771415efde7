//! The text of a type: the descriptor that reads as it.
//!
//! Reading a descriptor and writing a type down are inverse to each other. What is read from a
//! text has that text as its descriptor, and the descriptor of a type reads as that type.

use vstd::prelude::*;
use crate::descriptor::{
    Scan,
    TypeView,
    is_base,
    is_descriptor,
    is_field,
    lemma_brackets_in_text,
    lemma_name_ends_at_semicolon,
    spec_base,
    spec_brackets,
    spec_field,
    spec_method,
    spec_name_length,
    spec_parameters,
    spec_primitive,
    spec_read_type,
    spec_return,
};

verus! {

/// The descriptor of a primitive type or a class.
pub open spec fn spec_base_text(t: TypeView) -> Seq<char> {
    match t {
        TypeView::Byte => seq!['B'],
        TypeView::Char => seq!['C'],
        TypeView::Double => seq!['D'],
        TypeView::Float => seq!['F'],
        TypeView::Int => seq!['I'],
        TypeView::Long => seq!['J'],
        TypeView::Short => seq!['S'],
        TypeView::Boolean => seq!['Z'],
        TypeView::ClassInstance { name } => seq!['L'] + name + seq![';'],
        _ => Seq::empty(),
    }
}

/// The descriptor of a field type: one `[` for each dimension, then the base type.
pub open spec fn spec_field_text(t: TypeView) -> Seq<char> {
    match t {
        TypeView::Array { dimensions, element } => Seq::new(dimensions as nat, |i: int| '[')
            + spec_base_text(*element),
        _ => spec_base_text(t),
    }
}

/// The descriptors of field types, one after the other.
pub open spec fn spec_fields_text(ts: Seq<TypeView>) -> Seq<char>
    decreases ts.len(),
{
    if ts.len() == 0 {
        Seq::empty()
    } else {
        spec_field_text(ts[0]) + spec_fields_text(ts.drop_first())
    }
}

/// The descriptor of a return type.
pub open spec fn spec_return_text(t: TypeView) -> Seq<char> {
    if t is Void {
        seq!['V']
    } else {
        spec_field_text(t)
    }
}

/// The descriptor of a type.
pub open spec fn spec_text(t: TypeView) -> Seq<char> {
    match t {
        TypeView::Method { return_type, arguments } => seq!['('] + spec_fields_text(arguments)
            + seq![')'] + spec_return_text(*return_type),
        _ => spec_field_text(t),
    }
}

/// The `[` counted from `p` are all `[`.
proof fn lemma_brackets_are_brackets(s: Seq<char>, p: int)
    ensures
        forall|j: int| p <= j < p + spec_brackets(s, p) ==> #[trigger] s[j] == '[',
    decreases s.len() - p,
{
    if 0 <= p < s.len() && s[p] == '[' {
        lemma_brackets_are_brackets(s, p + 1);
    }
}

/// What is read as a base type was written as one.
proof fn lemma_base_was_written(s: Seq<char>, p: int)
    requires
        spec_base(s, p) is Found,
    ensures
        s.subrange(p, spec_base(s, p)->end) == spec_base_text(spec_base(s, p)->value),
        0 <= p < spec_base(s, p)->end <= s.len(),
{
    let end = spec_base(s, p)->end;
    if s[p] == 'L' {
        lemma_name_ends_at_semicolon(s, p + 1);
        let n = spec_name_length(s, p + 1).unwrap();
        assert(s.subrange(p, end) =~= seq!['L'] + s.subrange(p + 1, p + 1 + n) + seq![';']);
    } else {
        assert(s.subrange(p, end) =~= seq![s[p]]);
    }
}

/// What is read as a field type was written as one.
proof fn lemma_field_was_written(s: Seq<char>, p: int)
    requires
        spec_field(s, p) is Found,
    ensures
        s.subrange(p, spec_field(s, p)->end) == spec_field_text(spec_field(s, p)->value),
        0 <= p < spec_field(s, p)->end <= s.len(),
{
    let dimensions = spec_brackets(s, p);
    let end = spec_field(s, p)->end;
    lemma_brackets_in_text(s, p);
    lemma_brackets_are_brackets(s, p);
    lemma_base_was_written(s, p + dimensions);
    if dimensions > 0 {
        assert(s.subrange(p, end) =~= Seq::new(dimensions, |i: int| '[') + s.subrange(
            p + dimensions,
            end,
        ));
    }
}

/// What is read as the parameters of a method was written as these, with `)` after them.
proof fn lemma_parameters_were_written(s: Seq<char>, p: int)
    requires
        spec_parameters(s, p) is Found,
    ensures
        s.subrange(p, spec_parameters(s, p)->end) == spec_fields_text(
            spec_parameters(s, p)->value,
        ) + seq![')'],
        0 <= p < spec_parameters(s, p)->end <= s.len(),
    decreases s.len() - p,
{
    let end = spec_parameters(s, p)->end;
    let found = spec_parameters(s, p)->value;
    if s[p] == ')' {
        assert(s.subrange(p, end) =~= seq![')']);
        assert(spec_fields_text(found) + seq![')'] =~= seq![')']);
    } else {
        lemma_field_was_written(s, p);
        let next = spec_field(s, p)->end;
        lemma_parameters_were_written(s, next);
        let others = spec_parameters(s, next)->value;
        assert(found.drop_first() =~= others);
        assert(s.subrange(p, end) =~= s.subrange(p, next) + s.subrange(next, end));
        assert(spec_fields_text(found) + seq![')'] =~= spec_field_text(found[0]) + (
        spec_fields_text(others) + seq![')']));
    }
}

/// A text that reads as a type is the descriptor of that type: every character of it is
/// accounted for.
pub proof fn lemma_read_type_reads_the_text(s: Seq<char>)
    ensures
        spec_read_type(s) matches Ok(t) ==> spec_text(t) == s,
{
    if spec_read_type(s) is Ok {
        if s.len() > 0 && s[0] == '(' {
            lemma_parameters_were_written(s, 1);
            let mid = spec_parameters(s, 1)->end;
            let arguments = spec_parameters(s, 1)->value;
            let returned = spec_return(s, mid)->value;
            if mid < s.len() && s[mid] == 'V' {
                assert(s.subrange(mid, s.len() as int) =~= seq!['V']);
            } else {
                lemma_field_was_written(s, mid);
                crate::descriptor::lemma_field_is_field(s, mid);
            }
            assert(s =~= seq!['('] + s.subrange(1, mid) + s.subrange(mid, s.len() as int));
            assert(seq!['('] + spec_fields_text(arguments) + seq![')'] =~= seq!['('] + (
            spec_fields_text(arguments) + seq![')']));
        } else {
            lemma_field_was_written(s, 0);
            assert(s.subrange(0, s.len() as int) =~= s);
        }
    }
}

/// Whether `text` stands in `s` at `p`.
pub open spec fn stands_at(s: Seq<char>, p: int, text: Seq<char>) -> bool {
    0 <= p && p + text.len() <= s.len() && s.subrange(p, p + text.len()) == text
}

/// A run of `n` characters without `;` that `;` follows is a class name of that length.
proof fn lemma_name_is_read(s: Seq<char>, p: int, n: nat)
    requires
        0 <= p,
        p + n < s.len(),
        s[p + n] == ';',
        forall|j: int| p <= j < p + n ==> #[trigger] s[j] != ';',
    ensures
        spec_name_length(s, p) == Some(n),
    decreases n,
{
    if n > 0 {
        lemma_name_is_read(s, p + 1, (n - 1) as nat);
    }
}

/// A run of `d` characters `[` that no `[` follows is counted as `d`.
proof fn lemma_brackets_are_counted(s: Seq<char>, p: int, d: nat)
    requires
        0 <= p,
        p + d <= s.len(),
        forall|j: int| p <= j < p + d ==> #[trigger] s[j] == '[',
        !(p + d < s.len() && s[p + d] == '['),
    ensures
        spec_brackets(s, p) == d,
    decreases d,
{
    if d > 0 {
        lemma_brackets_are_counted(s, p + 1, (d - 1) as nat);
    }
}

/// The descriptor of a base type begins with a letter that is neither `[` nor `)` nor `V`.
proof fn lemma_base_text_begins(t: TypeView)
    requires
        is_base(t),
    ensures
        spec_base_text(t).len() >= 1,
        spec_base_text(t)[0] != '[',
        spec_base_text(t)[0] != ')',
        spec_base_text(t)[0] != 'V',
        spec_base_text(t)[0] != '(',
{
}

/// The descriptor of a base type reads as that type, wherever it stands.
proof fn lemma_base_is_read(s: Seq<char>, p: int, t: TypeView)
    requires
        is_base(t),
        stands_at(s, p, spec_base_text(t)),
    ensures
        spec_base(s, p) == (Scan::Found { value: t, end: p + spec_base_text(t).len() }),
{
    let text = spec_base_text(t);
    assert(forall|j: int| 0 <= j < text.len() ==> text[j] == s.subrange(p, p + text.len())[j]);
    assert(s[p] == text[0]);
    if let TypeView::ClassInstance { name } = t {
        let n: int = name.len() as int;
        assert(forall|j: int| 0 <= j < n ==> name[j] == text[j + 1]);
        assert(text[n + 1] == ';');
        assert forall|j: int| p + 1 <= j < p + 1 + n implies #[trigger] s[j] != ';' by {
            assert(s[j] == name[j - p - 1]);
            assert(name.contains(name[j - p - 1]));
        }
        lemma_name_is_read(s, p + 1, n as nat);
        assert(s.subrange(p + 1, p + 1 + n) =~= name);
    }
}

/// The descriptor of a field type reads as that type, wherever it stands.
proof fn lemma_field_is_read(s: Seq<char>, p: int, t: TypeView)
    requires
        is_field(t),
        stands_at(s, p, spec_field_text(t)),
    ensures
        spec_field(s, p) == (Scan::Found { value: t, end: p + spec_field_text(t).len() }),
{
    let text = spec_field_text(t);
    assert(forall|j: int| 0 <= j < text.len() ==> text[j] == s.subrange(p, p + text.len())[j]);
    if let TypeView::Array { dimensions, element } = t {
        let d = dimensions as nat;
        let base = spec_base_text(*element);
        lemma_base_text_begins(*element);
        assert(forall|j: int| 0 <= j < d ==> text[j] == '[');
        assert(text[d as int] == base[0]);
        assert forall|j: int| p <= j < p + d implies #[trigger] s[j] == '[' by {
            assert(s[j] == text[j - p]);
        }
        assert(s[p + d] == text[d as int]);
        lemma_brackets_are_counted(s, p, d);
        assert(text.len() == d + base.len());
        assert(forall|j: int| 0 <= j < base.len() ==> base[j] == text[d + j]);
        assert(s.subrange(p + d, p + d + base.len()) =~= base);
        lemma_base_is_read(s, p + d, *element);
    } else {
        lemma_base_text_begins(t);
        assert(s[p] == text[0]);
        lemma_brackets_are_counted(s, p, 0);
        lemma_base_is_read(s, p, t);
    }
}

/// The descriptors of field types with `)` after them read as the parameters of a method.
proof fn lemma_parameters_are_read(s: Seq<char>, p: int, ts: Seq<TypeView>)
    requires
        forall|i: int| 0 <= i < ts.len() ==> is_field(#[trigger] ts[i]),
        stands_at(s, p, spec_fields_text(ts) + seq![')']),
    ensures
        spec_parameters(s, p) == (Scan::Found {
            value: ts,
            end: p + spec_fields_text(ts).len() + 1,
        }),
    decreases ts.len(),
{
    let text = spec_fields_text(ts) + seq![')'];
    assert(forall|j: int| 0 <= j < text.len() ==> text[j] == s.subrange(p, p + text.len())[j]);
    if ts.len() == 0 {
        assert(s[p] == text[0]);
        assert(ts =~= Seq::empty());
    } else {
        let first = spec_field_text(ts[0]);
        let others = ts.drop_first();
        lemma_field_text_begins(ts[0]);
        assert(text[0] == first[0]);
        assert(s[p] == text[0]);
        assert(s.subrange(p, p + first.len()) =~= first);
        lemma_field_is_read(s, p, ts[0]);
        let next: int = p + first.len();
        let tail = spec_fields_text(others) + seq![')'];
        assert(text =~= first + tail);
        assert(forall|j: int| 0 <= j < tail.len() ==> tail[j] == text[first.len() + j]);
        assert(s.subrange(next, next + tail.len()) =~= tail);
        lemma_parameters_are_read(s, next, others);
        assert(seq![ts[0]] + others =~= ts);
    }
}

/// The descriptor of a field type begins with a character that is neither `)` nor `V` nor `(`.
proof fn lemma_field_text_begins(t: TypeView)
    requires
        is_field(t),
    ensures
        spec_field_text(t).len() >= 1,
        spec_field_text(t)[0] != ')',
        spec_field_text(t)[0] != 'V',
        spec_field_text(t)[0] != '(',
{
    if let TypeView::Array { dimensions, element } = t {
        lemma_base_text_begins(*element);
    } else {
        lemma_base_text_begins(t);
    }
}

/// The descriptor of a type reads as that type: whatever a descriptor can describe can be
/// written down and read again.
pub proof fn lemma_text_reads_as_the_type(t: TypeView)
    requires
        is_descriptor(t),
    ensures
        spec_read_type(spec_text(t)) == Ok::<TypeView, (crate::error::SyntaxErrorReason, int)>(t),
{
    let s = spec_text(t);
    if let TypeView::Method { return_type, arguments } = t {
        let parameters = spec_fields_text(arguments) + seq![')'];
        let returned = spec_return_text(*return_type);
        assert(s =~= seq!['('] + parameters + returned);
        assert(s[0] == '(');
        let mid: int = parameters.len() as int + 1;
        assert(s.subrange(1, mid) =~= parameters);
        lemma_parameters_are_read(s, 1, arguments);

        assert(s.subrange(mid, mid + returned.len()) =~= returned);
        if *return_type is Void {
            assert(s[mid] == returned[0]);
        } else {
            lemma_field_text_begins(*return_type);
            assert(s[mid] == returned[0]);
            lemma_field_is_read(s, mid, *return_type);
        }
    } else {
        lemma_field_text_begins(t);
        assert(s.subrange(0, s.len() as int) =~= s);
        lemma_field_is_read(s, 0, t);
    }
}

} // verus!
