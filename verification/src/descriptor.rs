//! Type descriptors: the strings in which a class file writes the type of a field or the
//! signature of a method.
//!
//! A field descriptor is one of the letters `B C D F I J S Z` for a primitive type, or
//! `L`, a class name and `;`, or one to 255 `[` before either of these for an array. A method
//! descriptor is `(`, any number of field descriptors, `)`, and then a field descriptor or `V`
//! for a method that returns nothing.

use vstd::prelude::*;
use crate::error::{DescriptorSyntaxError, SyntaxErrorReason};

verus! {

/// A type, as a descriptor names it.
#[derive(Debug, PartialEq, Eq)]
pub enum Type {
    Byte,
    Char,
    Double,
    Float,
    Int,
    Long,
    /// An instance of the class with this binary name, such as `java/lang/String`.
    ClassInstance { name: String },
    Short,
    Boolean,
    /// No value; only the return type of a method can be this.
    Void,
    /// An array of `dimensions` dimensions whose elements are of type `element`, which is no
    /// array itself.
    Array { dimensions: u8, element: Box<Type> },
    Method { return_type: Box<Type>, arguments: Vec<Type> },
}

/// A type as a mathematical value.
pub ghost enum TypeView {
    Byte,
    Char,
    Double,
    Float,
    Int,
    Long,
    ClassInstance { name: Seq<char> },
    Short,
    Boolean,
    Void,
    Array { dimensions: u8, element: Box<TypeView> },
    Method { return_type: Box<TypeView>, arguments: Seq<TypeView> },
}

impl Type {
    /// The mathematical value of this type.
    pub open spec fn model(&self) -> TypeView
        decreases self,
    {
        match self {
            Type::Byte => TypeView::Byte,
            Type::Char => TypeView::Char,
            Type::Double => TypeView::Double,
            Type::Float => TypeView::Float,
            Type::Int => TypeView::Int,
            Type::Long => TypeView::Long,
            Type::ClassInstance { name } => TypeView::ClassInstance { name: name@ },
            Type::Short => TypeView::Short,
            Type::Boolean => TypeView::Boolean,
            Type::Void => TypeView::Void,
            Type::Array { dimensions, element } => TypeView::Array {
                dimensions: *dimensions,
                element: Box::new(element.model()),
            },
            Type::Method { return_type, arguments } => TypeView::Method {
                return_type: Box::new(return_type.model()),
                arguments: Seq::new(
                    arguments@.len(),
                    |i: int|
                        if 0 <= i < arguments@.len() {
                            arguments@[i].model()
                        } else {
                            arbitrary()
                        },
                ),
            },
        }
    }
}

impl View for Type {
    type V = TypeView;

    open spec fn view(&self) -> TypeView {
        self.model()
    }
}

/// What reading a piece of a descriptor from some position comes to: a value and the position
/// just past it, or the kind of fault and the position at which it lies.
pub ghost enum Scan<T> {
    Found { value: T, end: int },
    Fault { reason: SyntaxErrorReason, at: int },
}

impl<T> Scan<Seq<T>> {
    /// The same outcome with `lead` put before the values found.
    pub open spec fn after(self, lead: Seq<T>) -> Scan<Seq<T>> {
        match self {
            Scan::Found { value, end } => Scan::Found { value: lead + value, end },
            Scan::Fault { reason, at } => Scan::Fault { reason, at },
        }
    }
}

/// The views of a run of types.
pub open spec fn views(items: Seq<Type>) -> Seq<TypeView> {
    Seq::new(items.len(), |i: int| items[i]@)
}

/// Whether `got`, a type and the position after it or an error, is what `want` says.
pub open spec fn scanned(got: Result<(Type, usize), DescriptorSyntaxError>, want: Scan<TypeView>) -> bool {
    match want {
        Scan::Found { value, end } => got is Ok && got.unwrap().0@ == value && got.unwrap().1
            == end,
        Scan::Fault { reason, at } => got is Err && got.unwrap_err().reason == reason
            && got.unwrap_err().position == at,
    }
}

/// The primitive type that a letter stands for.
pub open spec fn spec_primitive(c: char) -> Option<TypeView> {
    if c == 'B' {
        Some(TypeView::Byte)
    } else if c == 'C' {
        Some(TypeView::Char)
    } else if c == 'D' {
        Some(TypeView::Double)
    } else if c == 'F' {
        Some(TypeView::Float)
    } else if c == 'I' {
        Some(TypeView::Int)
    } else if c == 'J' {
        Some(TypeView::Long)
    } else if c == 'S' {
        Some(TypeView::Short)
    } else if c == 'Z' {
        Some(TypeView::Boolean)
    } else {
        None
    }
}

/// The number of characters from `p` up to the first `;`, if there is one.
pub open spec fn spec_name_length(s: Seq<char>, p: int) -> Option<nat>
    decreases s.len() - p,
{
    if p < 0 || p >= s.len() {
        None
    } else if s[p] == ';' {
        Some(0)
    } else {
        match spec_name_length(s, p + 1) {
            Some(n) => Some(n + 1),
            None => None,
        }
    }
}

/// The number of `[` in a row from `p` on.
pub open spec fn spec_brackets(s: Seq<char>, p: int) -> nat
    decreases s.len() - p,
{
    if 0 <= p < s.len() && s[p] == '[' {
        1 + spec_brackets(s, p + 1)
    } else {
        0
    }
}

/// A type that is no array: a primitive type or a class.
pub open spec fn spec_base(s: Seq<char>, p: int) -> Scan<TypeView> {
    if !(0 <= p < s.len()) {
        Scan::Fault { reason: SyntaxErrorReason::UnexpectedEnd, at: p }
    } else if s[p] == 'L' {
        match spec_name_length(s, p + 1) {
            None => Scan::Fault { reason: SyntaxErrorReason::UnterminatedClassName, at: p },
            Some(n) => Scan::Found {
                value: TypeView::ClassInstance { name: s.subrange(p + 1, p + 1 + n) },
                end: p + 2 + n,
            },
        }
    } else {
        match spec_primitive(s[p]) {
            None => Scan::Fault { reason: SyntaxErrorReason::UnexpectedCharacter, at: p },
            Some(value) => Scan::Found { value, end: p + 1 },
        }
    }
}

/// A field descriptor: a base type, or an array of one.
pub open spec fn spec_field(s: Seq<char>, p: int) -> Scan<TypeView> {
    let dimensions = spec_brackets(s, p);
    if dimensions == 0 {
        spec_base(s, p)
    } else if dimensions > 255 {
        Scan::Fault { reason: SyntaxErrorReason::TooManyDimensions, at: p + 255 }
    } else {
        match spec_base(s, p + dimensions) {
            Scan::Fault { reason, at } => Scan::Fault { reason, at },
            Scan::Found { value, end } => Scan::Found {
                value: TypeView::Array { dimensions: dimensions as u8, element: Box::new(value) },
                end,
            },
        }
    }
}

/// The number of characters from `p` to the end of `s`.
pub open spec fn rest_length(s: Seq<char>, p: int) -> nat {
    if p <= s.len() {
        (s.len() - p) as nat
    } else {
        0
    }
}

/// The parameters of a method: field descriptors up to the closing `)`.
pub open spec fn spec_parameters(s: Seq<char>, p: int) -> Scan<Seq<TypeView>>
    decreases rest_length(s, p),
{
    if !(0 <= p < s.len()) {
        Scan::Fault { reason: SyntaxErrorReason::UnexpectedEnd, at: p }
    } else if s[p] == ')' {
        Scan::Found { value: Seq::empty(), end: p + 1 }
    } else {
        match spec_field(s, p) {
            Scan::Fault { reason, at } => Scan::Fault { reason, at },
            Scan::Found { value: first, end } => spec_parameters(s, end).after(seq![first]),
        }
    }
}

/// The return type of a method: `V`, or a field descriptor.
pub open spec fn spec_return(s: Seq<char>, p: int) -> Scan<TypeView> {
    if 0 <= p < s.len() && s[p] == 'V' {
        Scan::Found { value: TypeView::Void, end: p + 1 }
    } else {
        spec_field(s, p)
    }
}

/// A method descriptor, whose `(` stands at `p`.
pub open spec fn spec_method(s: Seq<char>, p: int) -> Scan<TypeView> {
    match spec_parameters(s, p + 1) {
        Scan::Fault { reason, at } => Scan::Fault { reason, at },
        Scan::Found { value: arguments, end } => match spec_return(s, end) {
            Scan::Fault { reason, at } => Scan::Fault { reason, at },
            Scan::Found { value: return_type, end } => Scan::Found {
                value: TypeView::Method { return_type: Box::new(return_type), arguments },
                end,
            },
        },
    }
}

/// The type that the whole of `s` describes: a method where `s` begins with `(`, else a field.
pub open spec fn spec_read_type(s: Seq<char>) -> Result<TypeView, (SyntaxErrorReason, int)> {
    let scan = if s.len() > 0 && s[0] == '(' {
        spec_method(s, 0)
    } else {
        spec_field(s, 0)
    };
    match scan {
        Scan::Fault { reason, at } => Err((reason, at)),
        Scan::Found { value, end } => if end == s.len() {
            Ok(value)
        } else {
            Err((SyntaxErrorReason::TrailingCharacters, end))
        },
    }
}

/// Whether `t` is a primitive type or a class. The name of a class holds no `;`.
pub open spec fn is_base(t: TypeView) -> bool {
    match t {
        TypeView::Void => false,
        TypeView::Array { .. } => false,
        TypeView::Method { .. } => false,
        TypeView::ClassInstance { name } => !name.contains(';'),
        _ => true,
    }
}

/// Whether `t` is a type that a field can have: a primitive type, a class, or an array of at
/// least one dimension of either.
pub open spec fn is_field(t: TypeView) -> bool {
    match t {
        TypeView::Array { dimensions, element } => dimensions >= 1 && is_base(*element),
        _ => is_base(t),
    }
}

/// Whether `t` is a type that a descriptor can describe: that of a field, or a method whose
/// parameters are of field types and whose return type is a field type or `Void`.
pub open spec fn is_descriptor(t: TypeView) -> bool {
    match t {
        TypeView::Method { return_type, arguments } => {
            &&& *return_type is Void || is_field(*return_type)
            &&& forall|i: int| 0 <= i < arguments.len() ==> is_field(#[trigger] arguments[i])
        },
        _ => is_field(t),
    }
}

/// A class name ends at the first `;`: it lies within the text, and holds none itself.
pub proof fn lemma_name_ends_at_semicolon(s: Seq<char>, p: int)
    requires
        spec_name_length(s, p) is Some,
    ensures
        ({
            let n = spec_name_length(s, p).unwrap();
            &&& 0 <= p && p + n < s.len()
            &&& s[p + n] == ';'
            &&& forall|j: int| p <= j < p + n ==> #[trigger] s[j] != ';'
            &&& !s.subrange(p, p + n).contains(';')
        }),
    decreases s.len() - p,
{
    if s[p] != ';' {
        lemma_name_ends_at_semicolon(s, p + 1);
    }
    let n = spec_name_length(s, p).unwrap();
    let name = s.subrange(p, p + n);
    assert(forall|j: int| 0 <= j < name.len() ==> name[j] == s[p + j]);
}

/// A field descriptor that is read describes a field type, and takes at least one character
/// of the text.
pub proof fn lemma_field_is_field(s: Seq<char>, p: int)
    requires
        spec_field(s, p) is Found,
    ensures
        is_field(spec_field(s, p)->value),
        p < spec_field(s, p)->end <= s.len(),
{
    let dimensions = spec_brackets(s, p);
    lemma_brackets_in_text(s, p);
    if s[p + dimensions] == 'L' {
        lemma_name_ends_at_semicolon(s, p + dimensions + 1);
    }
}

/// The `[` counted from `p` lie within the text.
pub proof fn lemma_brackets_in_text(s: Seq<char>, p: int)
    ensures
        spec_brackets(s, p) > 0 ==> 0 <= p && p + spec_brackets(s, p) <= s.len(),
        0 <= p ==> !(p + spec_brackets(s, p) < s.len() && s[p + spec_brackets(s, p)] == '['),
    decreases s.len() - p,
{
    if 0 <= p < s.len() && s[p] == '[' {
        lemma_brackets_in_text(s, p + 1);
    }
}

/// The parameters that are read are of field types.
pub proof fn lemma_parameters_are_fields(s: Seq<char>, p: int)
    requires
        spec_parameters(s, p) is Found,
    ensures
        forall|i: int|
            0 <= i < spec_parameters(s, p)->value.len() ==> is_field(
                #[trigger] spec_parameters(s, p)->value[i],
            ),
        p < spec_parameters(s, p)->end <= s.len(),
    decreases rest_length(s, p),
{
    if s[p] != ')' {
        lemma_field_is_field(s, p);
        lemma_parameters_are_fields(s, spec_field(s, p)->end);
    }
}

/// Whatever a descriptor is read as is a type that a descriptor can describe: `Void` is the
/// return type of a method or nothing, a method is neither a parameter nor a return type nor
/// an element, and an array has at least one dimension and elements that are no arrays.
pub proof fn lemma_read_type_is_descriptor(s: Seq<char>)
    ensures
        spec_read_type(s) matches Ok(t) ==> is_descriptor(t),
{
    if spec_read_type(s) is Ok {
        if s.len() > 0 && s[0] == '(' {
            lemma_parameters_are_fields(s, 1);
            let end = spec_parameters(s, 1)->end;
            if !(s[end] == 'V') {
                lemma_field_is_field(s, end);
            }
        } else {
            lemma_field_is_field(s, 0);
        }
    }
}

/// A count of characters that began `by` characters before the place from which `length`
/// counts.
pub open spec fn counted_from(length: Option<nat>, by: int) -> Option<nat> {
    match length {
        Some(n) => Some((n + by) as nat),
        None => None,
    }
}

/// The characters of a string.
fn chars_of(string: &str) -> (r: Vec<char>)
    ensures
        r@ == string@,
{
    let mut out: Vec<char> = Vec::new();
    for c in it: string.chars()
        invariant
            it.seq() == string@,
            out@ == it.seq().take(it.index() as int),
    {
        out.push(c);
    }
    out
}

/// The primitive type that `c` stands for.
fn primitive(c: char) -> (r: Option<Type>)
    ensures
        match spec_primitive(c) {
            Some(t) => r is Some && r.unwrap()@ == t,
            None => r is None,
        },
{
    if c == 'B' {
        Some(Type::Byte)
    } else if c == 'C' {
        Some(Type::Char)
    } else if c == 'D' {
        Some(Type::Double)
    } else if c == 'F' {
        Some(Type::Float)
    } else if c == 'I' {
        Some(Type::Int)
    } else if c == 'J' {
        Some(Type::Long)
    } else if c == 'S' {
        Some(Type::Short)
    } else if c == 'Z' {
        Some(Type::Boolean)
    } else {
        None
    }
}

/// Reads a type that is no array.
fn read_base(cs: &Vec<char>, p: usize) -> (r: Result<(Type, usize), DescriptorSyntaxError>)
    requires
        p <= cs.len(),
    ensures
        scanned(r, spec_base(cs@, p as int)),
        r is Ok ==> p < r.unwrap().1 <= cs.len(),
{
    if p >= cs.len() {
        return Err(
            DescriptorSyntaxError { position: p, reason: SyntaxErrorReason::UnexpectedEnd },
        );
    }
    let c = cs[p];
    if c == 'L' {
        let mut name = String::new();
        let mut i: usize = p + 1;
        while i < cs.len() && cs[i] != ';'
            invariant
                p + 1 <= i <= cs.len(),
                name@ == cs@.subrange(p + 1, i as int),
                spec_name_length(cs@, p + 1) == counted_from(
                    spec_name_length(cs@, i as int),
                    i - (p + 1),
                ),
            decreases cs.len() - i,
        {
            name.push(cs[i]);
            i = i + 1;
            assert(cs@.subrange(p + 1, i as int) =~= cs@.subrange(p + 1, i - 1).push(cs@[i - 1]));
        }
        if i >= cs.len() {
            return Err(
                DescriptorSyntaxError {
                    position: p,
                    reason: SyntaxErrorReason::UnterminatedClassName,
                },
            );
        }
        return Ok((Type::ClassInstance { name }, i + 1));
    }
    match primitive(c) {
        Some(t) => Ok((t, p + 1)),
        None => Err(
            DescriptorSyntaxError { position: p, reason: SyntaxErrorReason::UnexpectedCharacter },
        ),
    }
}

/// Reads a field descriptor.
fn read_field(cs: &Vec<char>, p: usize) -> (r: Result<(Type, usize), DescriptorSyntaxError>)
    requires
        p <= cs.len(),
    ensures
        scanned(r, spec_field(cs@, p as int)),
        r is Ok ==> p < r.unwrap().1 <= cs.len(),
{
    let mut i: usize = p;
    while i < cs.len() && cs[i] == '[' && i - p < 256
        invariant
            p <= i <= cs.len(),
            i - p <= 256,
            spec_brackets(cs@, p as int) == (i - p) + spec_brackets(cs@, i as int),
        decreases cs.len() - i,
    {
        i = i + 1;
    }
    let dimensions = i - p;
    if dimensions == 0 {
        return read_base(cs, p);
    }
    if dimensions > 255 {
        return Err(
            DescriptorSyntaxError {
                position: p + 255,
                reason: SyntaxErrorReason::TooManyDimensions,
            },
        );
    }
    let (element, end) = read_base(cs, i)?;
    Ok((Type::Array { dimensions: dimensions as u8, element: Box::new(element) }, end))
}

/// Reads a method descriptor, whose `(` stands at `p`.
fn read_method(cs: &Vec<char>, p: usize) -> (r: Result<(Type, usize), DescriptorSyntaxError>)
    requires
        p < cs.len(),
    ensures
        scanned(r, spec_method(cs@, p as int)),
        r is Ok ==> p < r.unwrap().1 <= cs.len(),
{
    let mut arguments: Vec<Type> = Vec::new();
    let mut i: usize = p + 1;
    loop
        invariant
            p + 1 <= i <= cs.len(),
            spec_parameters(cs@, p + 1) == spec_parameters(cs@, i as int).after(views(arguments@)),
        ensures
            i < cs.len(),
            spec_parameters(cs@, p + 1) == (Scan::Found {
                value: views(arguments@),
                end: i + 1,
            }),
        decreases cs.len() - i,
    {
        if i >= cs.len() {
            return Err(
                DescriptorSyntaxError { position: i, reason: SyntaxErrorReason::UnexpectedEnd },
            );
        }
        if cs[i] == ')' {
            assert(views(arguments@) + Seq::<TypeView>::empty() =~= views(arguments@));
            break ;
        }
        let ghost before = views(arguments@);
        let (argument, end) = read_field(cs, i)?;
        let ghost first = argument@;
        arguments.push(argument);
        proof {
            let rest = spec_parameters(cs@, end as int);
            assert(views(arguments@) =~= before + seq![first]);
            if rest is Found {
                assert(before + (seq![first] + rest->value) =~= (before + seq![first])
                    + rest->value);
            }
        }
        i = end;
    }
    let after = i + 1;
    let (return_type, end) = if after < cs.len() && cs[after] == 'V' {
        (Type::Void, after + 1)
    } else {
        read_field(cs, after)?
    };
    let ghost found = views(arguments@);
    let ghost returned = return_type@;
    let method = Type::Method { return_type: Box::new(return_type), arguments };
    assert(method@->arguments =~= found);
    assert(method@->return_type == Box::new(returned));
    Ok((method, end))
}

/// Reads a descriptor: the type of a field, or the signature of a method. The whole string
/// must be the descriptor.
pub fn read_type(string: &str) -> (r: Result<Type, DescriptorSyntaxError>)
    ensures
        match spec_read_type(string@) {
            Ok(t) => r is Ok && r.unwrap()@ == t,
            Err((reason, at)) => r is Err && r.unwrap_err().reason == reason
                && r.unwrap_err().position == at,
        },
        r is Ok ==> is_descriptor(r.unwrap()@),
{
    proof {
        lemma_read_type_is_descriptor(string@);
    }
    let cs = chars_of(string);
    let (value, end) = if cs.len() > 0 && cs[0] == '(' {
        read_method(&cs, 0)?
    } else {
        read_field(&cs, 0)?
    };
    if end != cs.len() {
        return Err(
            DescriptorSyntaxError { position: end, reason: SyntaxErrorReason::TrailingCharacters },
        );
    }
    Ok(value)
}

} // verus!
