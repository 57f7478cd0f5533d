//! Renders a result value as JSON-like text.
use vstd::prelude::*;
use crate::number::Number;
use crate::object::{fields_view, objects_view, Object, ObjectView};

verus! {

pub open spec fn digit_char(d: nat) -> char {
    if d == 0 { '0' } else if d == 1 { '1' } else if d == 2 { '2' } else if d == 3 { '3' }
    else if d == 4 { '4' } else if d == 5 { '5' } else if d == 6 { '6' } else if d == 7 { '7' }
    else if d == 8 { '8' } else { '9' }
}

/// Decimal digits of `x`, most significant first.
pub open spec fn digits(x: nat) -> Seq<char>
    decreases x,
{
    if x < 10 {
        seq![digit_char(x)]
    } else {
        digits(x / 10).push(digit_char(x % 10))
    }
}

/// Drops trailing zeros after the point: `(4180, 2)` becomes `(418, 1)`.
pub open spec fn normalize(m: nat, s: nat) -> (nat, nat)
    decreases s,
{
    if s > 0 && m % 10 == 0 {
        normalize(m / 10, (s - 1) as nat)
    } else {
        (m, s)
    }
}

/// `d` with zeros in front up to `w` characters.
pub open spec fn pad_zeros(d: Seq<char>, w: nat) -> Seq<char> {
    if d.len() >= w {
        d
    } else {
        Seq::new((w - d.len()) as nat, |i: int| '0') + d
    }
}

pub open spec fn magnitude(m: int) -> nat {
    if m < 0 {
        (-m) as nat
    } else {
        m as nat
    }
}

/// How a number is written: shortest decimal form, `-` in front when negative.
pub open spec fn number_text(n: Number) -> Seq<char> {
    let (m, s) = normalize(magnitude(n.mantissa as int), n.scale as nat);
    let d = pad_zeros(digits(m), s + 1);
    let k = d.len() - s;
    let body = if s == 0 {
        d
    } else {
        d.subrange(0, k) + "."@ + d.subrange(k, d.len() as int)
    };
    if n.mantissa < 0 && m != 0 {
        "-"@ + body
    } else {
        body
    }
}

/// Text of a value.
pub open spec fn value_text(v: ObjectView) -> Seq<char>
    decreases v, 0nat,
{
    match v {
        ObjectView::Num(n) => number_text(n),
        ObjectView::Text(s) => "\""@ + s + "\""@,
        ObjectView::Struct(f) => "{"@ + fields_text(f, f.len()) + "}"@,
        ObjectView::Array(a) => "["@ + items_text(a, a.len()) + "]"@,
        ObjectView::Function(_, name, _, _) => "<fn "@ + name + ">"@,
        ObjectView::Nil => "null"@,
    }
}

/// The first `k` fields, `"name":value`, separated by commas.
pub open spec fn fields_text(f: Seq<(Seq<char>, ObjectView)>, k: nat) -> Seq<char>
    decreases f, k,
{
    if k == 0 || k > f.len() {
        Seq::empty()
    } else {
        let item = "\""@ + f[k - 1].0 + "\":"@ + value_text(f[k - 1].1);
        if k == 1 {
            item
        } else {
            fields_text(f, (k - 1) as nat) + ","@ + item
        }
    }
}

/// The first `k` items, separated by commas.
pub open spec fn items_text(a: Seq<ObjectView>, k: nat) -> Seq<char>
    decreases a, k,
{
    if k == 0 || k > a.len() {
        Seq::empty()
    } else if k == 1 {
        value_text(a[0])
    } else {
        items_text(a, (k - 1) as nat) + ","@ + value_text(a[k - 1])
    }
}

fn digit_str(d: u64) -> (r: &'static str)
    requires
        d < 10,
    ensures
        r@ == seq![digit_char(d as nat)],
{
    proof {
        reveal_strlit("0");
        reveal_strlit("1");
        reveal_strlit("2");
        reveal_strlit("3");
        reveal_strlit("4");
        reveal_strlit("5");
        reveal_strlit("6");
        reveal_strlit("7");
        reveal_strlit("8");
        reveal_strlit("9");
    }
    if d == 0 { "0" } else if d == 1 { "1" } else if d == 2 { "2" } else if d == 3 { "3" }
    else if d == 4 { "4" } else if d == 5 { "5" } else if d == 6 { "6" } else if d == 7 { "7" }
    else if d == 8 { "8" } else { "9" }
}

fn append_digits(s: &mut String, x: u64)
    ensures
        final(s)@ == old(s)@ + digits(x as nat),
    decreases x,
{
    if x >= 10 {
        append_digits(s, x / 10);
    }
    s.append(digit_str(x % 10));
}

pub struct JsonFmt {}

impl JsonFmt {
    pub fn new() -> (r: JsonFmt) {
        JsonFmt {  }
    }

    /// How a number is written.
    pub fn format_number(&self, n: Number) -> (r: String)
        ensures
            r@ == number_text(n),
    {
        let mut m: u64 = if n.mantissa < 0 {
            (-(n.mantissa as i128)) as u64
        } else {
            n.mantissa as u64
        };
        let mut s: u32 = n.scale;
        assert(m as nat == magnitude(n.mantissa as int));
        while s > 0 && m % 10 == 0
            invariant
                normalize(m as nat, s as nat) == normalize(magnitude(n.mantissa as int), n.scale as nat),
            decreases s,
        {
            m = m / 10;
            s = s - 1;
        }
        let mut d = String::new();
        append_digits(&mut d, m);
        assert(d@ == digits(m as nat));
        let len = d.as_str().unicode_len();
        let mut padded = String::new();
        if len <= s as usize {
            let mut z: u64 = 0;
            let want: u64 = s as u64 + 1 - len as u64;
            while z < want
                invariant
                    z <= want,
                    padded@ == Seq::new(z as nat, |i: int| '0'),
                decreases want - z,
            {
                padded.append("0");
                proof {
                    reveal_strlit("0");
                }
                assert(padded@ =~= Seq::new((z + 1) as nat, |i: int| '0'));
                z = z + 1;
            }
        }
        padded.append(d.as_str());
        assert(padded@ =~= pad_zeros(digits(m as nat), (s + 1) as nat));
        let plen = padded.as_str().unicode_len();
        let mut out = String::new();
        if n.mantissa < 0 && m != 0 {
            out.append("-");
        }
        if s == 0 {
            out.append(padded.as_str());
        } else {
            let k = plen - s as usize;
            out.append(padded.as_str().substring_char(0, k));
            out.append(".");
            out.append(padded.as_str().substring_char(k, plen));
        }
        assert(out@ =~= number_text(n));
        out
    }

    /// The text of a result value.
    pub fn format(&self, object: &Object) -> (r: String)
        ensures
            r@ == value_text(object@),
        decreases object,
    {
        match object {
            Object::Num(f) => self.format_number(*f),
            Object::String(s) => {
                let mut out = String::from_str("\"");
                out.append(s.as_str());
                out.append("\"");
                out
            },
            Object::Struct(fields) => {
                let ghost fv = fields_view(fields@);
                let mut s = String::from_str("{");
                let mut i: usize = 0;
                while i < fields.len()
                    invariant
                        *object == Object::Struct(*fields),
                        fv == fields_view(fields@),
                        i <= fields@.len(),
                        s@ == "{"@ + fields_text(fv, i as nat),
                    decreases fields@.len() - i,
                {
                    proof {
                        assert(decreases_to!(*object => object->Struct_0));
                        assert(decreases_to!(*fields => fields@));
                        assert(decreases_to!(fields@ => fields@[i as int]));
                        assert(fv[i as int] == (fields@[i as int].0.0@, fields@[i as int].1@));
                    }
                    if i > 0 {
                        s.append(",");
                    }
                    s.append("\"");
                    s.append(fields[i].0.0.as_str());
                    s.append("\":");
                    let v = self.format(&fields[i].1);
                    s.append(v.as_str());
                    i = i + 1;
                }
                s.append("}");
                s
            },
            Object::Array(a) => {
                let ghost av = objects_view(a@);
                let mut s = String::from_str("[");
                let mut i: usize = 0;
                while i < a.len()
                    invariant
                        *object == Object::Array(*a),
                        av == objects_view(a@),
                        i <= a@.len(),
                        s@ == "["@ + items_text(av, i as nat),
                    decreases a@.len() - i,
                {
                    proof {
                        assert(decreases_to!(*object => object->Array_0));
                        assert(decreases_to!(*a => a@));
                        assert(decreases_to!(a@ => a@[i as int]));
                        assert(av[i as int] == a@[i as int]@);
                    }
                    if i > 0 {
                        s.append(",");
                    }
                    let v = self.format(&a[i]);
                    s.append(v.as_str());
                    i = i + 1;
                }
                s.append("]");
                s
            },
            Object::Function(_, name, _, _) => {
                let mut out = String::from_str("<fn ");
                out.append(name.as_str());
                out.append(">");
                out
            },
            Object::Nil => String::from_str("null"),
        }
    }
}

} // verus!
