//! The result of the datum reader: the untyped, structure-preserving parse
//! tree of Lisp syntax, together with its mathematical model.

use vstd::prelude::*;

use vstd::string::StrSliceExecFns;

verus! {

/// Which of the reader shorthand markers (`'`, `` ` ``, `,`, `,@`) introduced
/// a quoted form.
#[derive(Debug, Clone, Copy, PartialEq, Eq, Structural)]
pub enum AbbrevPrefix {
    Quote,
    Quasi,
    Comma,
    CommaAt,
}

/// The untyped parse tree produced by reading Lisp-family syntax.
#[derive(Debug, PartialEq)]
pub enum Datum {
    Quote(AbbrevPrefix, Box<Datum>),
    Bool(bool),
    ByteVector(Vec<u8>),
    Char(char),
    DottedList(Vec<Datum>, Box<Datum>),
    Fixnum(i32),
    Label(u32),
    List(Vec<Datum>),
    LabelSet(u32, Box<Datum>),
    Str(String),
    Symbol(String),
    Vector(Vec<Datum>),
    Ellipses,
    Null,
    Undefined,
    Eof,
}

/// Mathematical model of a `Datum`: strings become character sequences and
/// vectors become sequences, so contracts can speak of contents directly.
pub enum DatumV {
    Quote(AbbrevPrefix, Box<DatumV>),
    Bool(bool),
    ByteVector(Seq<u8>),
    Char(char),
    DottedList(Seq<DatumV>, Box<DatumV>),
    Fixnum(int),
    Label(int),
    List(Seq<DatumV>),
    LabelSet(int, Box<DatumV>),
    Str(Seq<char>),
    Symbol(Seq<char>),
    Vector(Seq<DatumV>),
    Ellipses,
    Null,
    Undefined,
    Eof,
}

/// The model of a datum tree.
pub open spec fn datum_v(d: Datum) -> DatumV
    decreases d,
{
    match d {
        Datum::Quote(p, b) => DatumV::Quote(p, Box::new(datum_v(*b))),
        Datum::Bool(b) => DatumV::Bool(b),
        Datum::ByteVector(v) => DatumV::ByteVector(v@),
        Datum::Char(c) => DatumV::Char(c),
        Datum::DottedList(v, t) => DatumV::DottedList(data_v(v@), Box::new(datum_v(*t))),
        Datum::Fixnum(n) => DatumV::Fixnum(n as int),
        Datum::Label(n) => DatumV::Label(n as int),
        Datum::List(v) => DatumV::List(data_v(v@)),
        Datum::LabelSet(n, b) => DatumV::LabelSet(n as int, Box::new(datum_v(*b))),
        Datum::Str(s) => DatumV::Str(s@),
        Datum::Symbol(s) => DatumV::Symbol(s@),
        Datum::Vector(v) => DatumV::Vector(data_v(v@)),
        Datum::Ellipses => DatumV::Ellipses,
        Datum::Null => DatumV::Null,
        Datum::Undefined => DatumV::Undefined,
        Datum::Eof => DatumV::Eof,
    }
}

/// The models of a sequence of datum trees, in order.
pub open spec fn data_v(s: Seq<Datum>) -> Seq<DatumV>
    decreases s,
{
    if s.len() == 0 {
        Seq::empty()
    } else {
        seq![datum_v(s[0])] + data_v(s.drop_first())
    }
}

/// Appending a datum appends its model.
pub proof fn lemma_data_v_push(s: Seq<Datum>, d: Datum)
    ensures
        data_v(s.push(d)) == data_v(s).push(datum_v(d)),
{
    lemma_data_v(s.push(d));
    lemma_data_v(s);
    assert(data_v(s.push(d)) =~= data_v(s).push(datum_v(d)));
}


/// Taking a subrange commutes with taking models.
pub proof fn lemma_data_v_subrange(s: Seq<Datum>, a: int, b: int)
    requires
        0 <= a <= b <= s.len(),
    ensures
        data_v(s.subrange(a, b)) == data_v(s).subrange(a, b),
{
    lemma_data_v(s);
    lemma_data_v(s.subrange(a, b));
    assert(data_v(s.subrange(a, b)) =~= data_v(s).subrange(a, b));
}

/// `data_v` maps the model over the sequence element by element.
pub broadcast proof fn lemma_data_v(s: Seq<Datum>)
    ensures
        (#[trigger] data_v(s)).len() == s.len(),
        forall|i: int| 0 <= i < s.len() ==> data_v(s)[i] == datum_v(s[i]),
    decreases s.len(),
{
    if s.len() > 0 {
        lemma_data_v(s.drop_first());
    }
}

impl View for Datum {
    type V = DatumV;

    open spec fn view(&self) -> DatumV {
        datum_v(*self)
    }
}

impl DeepView for Datum {
    type V = DatumV;

    open spec fn deep_view(&self) -> DatumV {
        datum_v(*self)
    }
}


/// A copy of a byte vector.
fn dup_bytes(v: &Vec<u8>) -> (r: Vec<u8>)
    ensures
        r@ == v@,
{
    let mut r: Vec<u8> = Vec::new();
    let mut i: usize = 0;
    while i < v.len()
        invariant
            i <= v@.len(),
            r@ == v@.take(i as int),
        decreases v@.len() - i,
    {
        r.push(v[i]);
        proof {
            assert(r@ =~= v@.take(i + 1));
        }
        i = i + 1;
    }
    proof {
        assert(r@ =~= v@);
    }
    r
}

/// A copy of a sequence of datum trees, stated by their models.
pub fn dup_data(v: &Vec<Datum>) -> (r: Vec<Datum>)
    ensures
        data_v(r@) == data_v(v@),
        r@.len() == v@.len(),
    decreases v@,
{
    let mut r: Vec<Datum> = Vec::new();
    let mut i: usize = 0;
    while i < v.len()
        invariant
            i <= v@.len(),
            r@.len() == i,
            forall|k: int| 0 <= k < i ==> datum_v(#[trigger] r@[k]) == datum_v(v@[k]),
        decreases v@.len() - i,
    {
        proof {
            assert(decreases_to!(v@ => v@[i as int]));
        }
        r.push(v[i].duplicate());
        i = i + 1;
    }
    proof {
        lemma_data_v(r@);
        lemma_data_v(v@);
        assert(data_v(r@) =~= data_v(v@));
    }
    r
}


/// The decimal digit character for `n` in the range 0 to 9.
pub open spec fn digit_char(n: int) -> char {
    ((48 + n) as u8) as char
}

/// The decimal digits of a non-negative number, most significant first.
pub open spec fn dec_digits(n: int) -> Seq<char>
    decreases n,
{
    if n < 10 {
        seq![digit_char(n)]
    } else {
        dec_digits(n / 10).push(digit_char(n % 10))
    }
}

/// The decimal rendering of a number, with a leading minus when negative.
pub open spec fn dec_text(n: int) -> Seq<char> {
    if n < 0 {
        seq!['-'] + dec_digits(-n)
    } else {
        dec_digits(n)
    }
}

/// The rendering of an abbreviation prefix.
pub open spec fn prefix_text(p: AbbrevPrefix) -> Seq<char> {
    match p {
        AbbrevPrefix::Quote => seq!['\''],
        AbbrevPrefix::Quasi => seq!['`'],
        AbbrevPrefix::Comma => seq![','],
        AbbrevPrefix::CommaAt => seq![',', '@'],
    }
}

/// The canonical textual rendering of a datum. Markers with no surface
/// syntax render as nothing.
pub open spec fn datum_text(d: DatumV) -> Seq<char>
    decreases d, 0int,
{
    match d {
        DatumV::Bool(b) => if b {
            seq!['#', 't']
        } else {
            seq!['#', 'f']
        },
        DatumV::Fixnum(n) => dec_text(n),
        DatumV::Char(c) => if c == '\n' {
            seq!['#', '\\', 'n', 'e', 'w', 'l', 'i', 'n', 'e']
        } else if c == ' ' {
            seq!['#', '\\', 's', 'p', 'a', 'c', 'e']
        } else {
            seq!['#', '\\', c]
        },
        DatumV::Str(s) => seq!['"'] + s + seq!['"'],
        DatumV::Symbol(s) => s,
        DatumV::List(es) => seq!['('] + data_text(es) + seq![')'],
        DatumV::DottedList(es, t) => seq!['('] + data_text(es) + seq![' ', '.', ' ']
            + datum_text(*t) + seq![')'],
        DatumV::Vector(es) => seq!['#', '('] + data_text(es) + seq![')'],
        DatumV::Quote(p, b) => prefix_text(p) + datum_text(*b),
        DatumV::Ellipses => seq!['.', '.', '.'],
        DatumV::ByteVector(bs) => seq!['#', 'u', '8', '('] + bytes_text(bs) + seq![')'],
        DatumV::Label(n) => seq!['#'] + dec_text(n) + seq!['#'],
        DatumV::LabelSet(n, b) => seq!['#'] + dec_text(n) + seq!['='] + datum_text(*b),
        DatumV::Null => seq!['(', ')'],
        DatumV::Undefined => Seq::empty(),
        DatumV::Eof => Seq::empty(),
    }
}

/// The renderings of a sequence of datums, separated by single spaces.
pub open spec fn data_text(es: Seq<DatumV>) -> Seq<char>
    decreases es, 1int,
{
    if es.len() == 0 {
        Seq::empty()
    } else if es.len() == 1 {
        datum_text(es[0])
    } else {
        datum_text(es[0]) + seq![' '] + data_text(es.drop_first())
    }
}

/// The renderings of a sequence of bytes, separated by single spaces.
pub open spec fn bytes_text(bs: Seq<u8>) -> Seq<char>
    decreases bs.len(),
{
    if bs.len() == 0 {
        Seq::empty()
    } else if bs.len() == 1 {
        dec_digits(bs[0] as int)
    } else {
        dec_digits(bs[0] as int) + seq![' '] + bytes_text(bs.drop_first())
    }
}

/// Appends the decimal digits of `m`.
fn print_udec(m: u64, out: &mut Vec<char>)
    ensures
        final(out)@ == old(out)@ + dec_digits(m as int),
    decreases m,
{
    if m < 10 {
        out.push(((48 + m) as u8) as char);
        proof {
            assert(out@ =~= old(out)@ + dec_digits(m as int));
        }
    } else {
        print_udec(m / 10, out);
        out.push(((48 + m % 10) as u8) as char);
        proof {
            assert(out@ =~= old(out)@ + dec_digits(m as int));
        }
    }
}

/// Appends the decimal rendering of `n`.
fn print_dec(n: i32, out: &mut Vec<char>)
    ensures
        final(out)@ == old(out)@ + dec_text(n as int),
{
    let m: i64 = n as i64;
    if m < 0 {
        out.push('-');
        print_udec((0 - m) as u64, out);
        proof {
            assert(out@ =~= old(out)@ + dec_text(n as int));
        }
    } else {
        print_udec(m as u64, out);
    }
}

/// Appends the renderings of `es[from..]`, space-separated.
fn print_data(es: &Vec<Datum>, from: usize, out: &mut Vec<char>)
    requires
        from <= es@.len(),
    ensures
        final(out)@ == old(out)@ + data_text(data_v(es@).skip(from as int)),
    decreases es@, es@.len() - from,
{
    proof {
        lemma_data_v(es@);
    }
    if from >= es.len() {
        proof {
            assert(data_v(es@).skip(from as int) =~= Seq::<DatumV>::empty());
            assert(out@ =~= out@ + Seq::<char>::empty());
        }
        return;
    }
    proof {
        assert(decreases_to!(es@ => es@[from as int]));
        assert(data_v(es@).skip(from as int)[0] == data_v(es@)[from as int]);
    }
    es[from].print_into(out);
    if from + 1 < es.len() {
        out.push(' ');
        print_data(es, from + 1, out);
        proof {
            assert(data_v(es@).skip(from as int).drop_first() =~= data_v(es@).skip(
                from + 1,
            ));
            assert(out@ =~= old(out)@ + data_text(data_v(es@).skip(from as int)));
        }
    } else {
        proof {
            assert(data_v(es@).skip(from as int).len() == 1);
        }
    }
}

/// Appends the renderings of `bs[from..]`, space-separated.
fn print_bytes(bs: &Vec<u8>, from: usize, out: &mut Vec<char>)
    requires
        from <= bs@.len(),
    ensures
        final(out)@ == old(out)@ + bytes_text(bs@.skip(from as int)),
    decreases bs@.len() - from,
{
    if from >= bs.len() {
        proof {
            assert(bs@.skip(from as int) =~= Seq::<u8>::empty());
            assert(out@ =~= out@ + Seq::<char>::empty());
        }
        return;
    }
    proof {
        assert(bs@.skip(from as int)[0] == bs@[from as int]);
    }
    print_udec(bs[from] as u64, out);
    if from + 1 < bs.len() {
        out.push(' ');
        print_bytes(bs, from + 1, out);
        proof {
            assert(bs@.skip(from as int).drop_first() =~= bs@.skip(from + 1));
            assert(out@ =~= old(out)@ + bytes_text(bs@.skip(from as int)));
        }
    } else {
        proof {
            assert(bs@.skip(from as int).len() == 1);
        }
    }
}


/// Appends every character of `s` to `out`.
fn push_chars(s: &String, out: &mut Vec<char>)
    ensures
        final(out)@ == old(out)@ + s@,
{
    let st = s.as_str();
    let n = st.unicode_len();
    let mut i: usize = 0;
    while i < n
        invariant
            i <= n,
            n == s@.len(),
            st@ == s@,
            out@ == old(out)@ + s@.take(i as int),
        decreases n - i,
    {
        out.push(st.get_char(i));
        proof {
            assert(old(out)@ + s@.take(i as int) + seq![s@[i as int]] =~= old(out)@
                + s@.take(i + 1));
        }
        i = i + 1;
    }
    proof {
        assert(s@.take(n as int) =~= s@);
    }
}

impl Datum {

    /// The canonical textual rendering of this datum.
    pub fn print(&self) -> (r: String)
        ensures
            r@ == datum_text(self@),
    {
        let mut out: Vec<char> = Vec::new();
        self.print_into(&mut out);
        proof {
            assert(out@.subrange(0, out@.len() as int) =~= out@);
        }
        crate::token::chars_to_string(&out, 0, out.len())
    }

    /// Appends the rendering of this datum to `out`.
    fn print_into(&self, out: &mut Vec<char>)
        ensures
            final(out)@ == old(out)@ + datum_text(self@),
        decreases *self, 0int,
    {
        match self {
            Datum::Bool(b) => {
                out.push('#');
                if *b {
                    out.push('t');
                } else {
                    out.push('f');
                }
                proof {
                    assert(out@ =~= old(out)@ + datum_text(self@));
                }
            },
            Datum::Fixnum(n) => {
                print_dec(*n, out);
            },
            Datum::Char(c) => {
                out.push('#');
                out.push('\\');
                if *c == '\n' {
                    out.push('n');
                    out.push('e');
                    out.push('w');
                    out.push('l');
                    out.push('i');
                    out.push('n');
                    out.push('e');
                } else if *c == ' ' {
                    out.push('s');
                    out.push('p');
                    out.push('a');
                    out.push('c');
                    out.push('e');
                } else {
                    out.push(*c);
                }
                proof {
                    assert(out@ =~= old(out)@ + datum_text(self@));
                }
            },
            Datum::Str(s) => {
                out.push('"');
                push_chars(s, out);
                out.push('"');
                proof {
                    assert(out@ =~= old(out)@ + datum_text(self@));
                }
            },
            Datum::Symbol(s) => {
                push_chars(s, out);
                proof {
                    assert(out@ =~= old(out)@ + datum_text(self@));
                }
            },
            Datum::List(v) => {
                out.push('(');
                print_data(v, 0, out);
                out.push(')');
                proof {
                    assert(decreases_to!(*self => *v));
                    assert(data_v(v@).skip(0) =~= data_v(v@));
                    assert(out@ =~= old(out)@ + datum_text(self@));
                }
            },
            Datum::DottedList(v, t) => {
                out.push('(');
                print_data(v, 0, out);
                out.push(' ');
                out.push('.');
                out.push(' ');
                t.print_into(out);
                out.push(')');
                proof {
                    assert(data_v(v@).skip(0) =~= data_v(v@));
                    assert(out@ =~= old(out)@ + datum_text(self@));
                }
            },
            Datum::Vector(v) => {
                out.push('#');
                out.push('(');
                print_data(v, 0, out);
                out.push(')');
                proof {
                    assert(data_v(v@).skip(0) =~= data_v(v@));
                    assert(out@ =~= old(out)@ + datum_text(self@));
                }
            },
            Datum::Quote(p, b) => {
                match p {
                    AbbrevPrefix::Quote => {
                        out.push('\'');
                    },
                    AbbrevPrefix::Quasi => {
                        out.push('`');
                    },
                    AbbrevPrefix::Comma => {
                        out.push(',');
                    },
                    AbbrevPrefix::CommaAt => {
                        out.push(',');
                        out.push('@');
                    },
                }
                b.print_into(out);
                proof {
                    assert(out@ =~= old(out)@ + datum_text(self@));
                }
            },
            Datum::Ellipses => {
                out.push('.');
                out.push('.');
                out.push('.');
                proof {
                    assert(out@ =~= old(out)@ + datum_text(self@));
                }
            },
            Datum::ByteVector(bs) => {
                out.push('#');
                out.push('u');
                out.push('8');
                out.push('(');
                print_bytes(bs, 0, out);
                out.push(')');
                proof {
                    assert(bs@.skip(0) =~= bs@);
                    assert(out@ =~= old(out)@ + datum_text(self@));
                }
            },
            Datum::Label(n) => {
                out.push('#');
                print_udec(*n as u64, out);
                out.push('#');
                proof {
                    assert(out@ =~= old(out)@ + datum_text(self@));
                }
            },
            Datum::LabelSet(n, b) => {
                out.push('#');
                print_udec(*n as u64, out);
                out.push('=');
                b.print_into(out);
                proof {
                    assert(out@ =~= old(out)@ + datum_text(self@));
                }
            },
            Datum::Null => {
                out.push('(');
                out.push(')');
                proof {
                    assert(out@ =~= old(out)@ + datum_text(self@));
                }
            },
            Datum::Undefined => {
                proof {
                    assert(out@ =~= old(out)@ + datum_text(self@));
                }
            },
            Datum::Eof => {
                proof {
                    assert(out@ =~= old(out)@ + datum_text(self@));
                }
            },
        }
    }

    /// A structural copy of this datum, stated by its model.
    pub fn duplicate(&self) -> (r: Datum)
        ensures
            r@ == self@,
        decreases *self,
    {
        match self {
            Datum::Quote(p, b) => Datum::Quote(*p, Box::new(b.duplicate())),
            Datum::Bool(b) => Datum::Bool(*b),
            Datum::ByteVector(v) => Datum::ByteVector(dup_bytes(v)),
            Datum::Char(c) => Datum::Char(*c),
            Datum::DottedList(v, t) => Datum::DottedList(dup_data(v), Box::new(t.duplicate())),
            Datum::Fixnum(n) => Datum::Fixnum(*n),
            Datum::Label(n) => Datum::Label(*n),
            Datum::List(v) => Datum::List(dup_data(v)),
            Datum::LabelSet(n, b) => Datum::LabelSet(*n, Box::new(b.duplicate())),
            Datum::Str(s) => Datum::Str(s.clone()),
            Datum::Symbol(s) => Datum::Symbol(s.clone()),
            Datum::Vector(v) => Datum::Vector(dup_data(v)),
            Datum::Ellipses => Datum::Ellipses,
            Datum::Null => Datum::Null,
            Datum::Undefined => Datum::Undefined,
            Datum::Eof => Datum::Eof,
        }
    }

    /// Whether this datum is a proper list.
    pub fn is_list(&self) -> (r: bool)
        ensures
            r == (self@ is List),
    {
        match self {
            Datum::List(_) => true,
            _ => false,
        }
    }

    /// Whether this datum is a string literal.
    pub fn is_string(&self) -> (r: bool)
        ensures
            r == (self@ is Str),
    {
        match self {
            Datum::Str(_) => true,
            _ => false,
        }
    }

    /// The contents of a string literal datum.
    pub fn get_string(&self) -> (r: String)
        requires
            self@ is Str,
        ensures
            r@ == self@->Str_0,
    {
        match self {
            Datum::Str(s) => s.clone(),
            _ => unreached(),
        }
    }

    /// Whether this datum is a symbol.
    pub fn is_symbol(&self) -> (r: bool)
        ensures
            r == (self@ is Symbol),
    {
        match self {
            Datum::Symbol(_) => true,
            _ => false,
        }
    }

    /// The name of a symbol datum.
    pub fn get_symbol_name(&self) -> (r: String)
        requires
            self@ is Symbol,
        ensures
            r@ == self@->Symbol_0,
    {
        match self {
            Datum::Symbol(s) => s.clone(),
            _ => unreached(),
        }
    }
}

} // verus!
