use vstd::prelude::*;
use vstd::std_specs::cmp::PartialEqSpec;

verus! {

/// The largest magnitude a decimal run needs before it is known to be
/// outside the range of `i32` (one past `i32::MAX`).
const MAGNITUDE_LIMIT: i64 = 2147483648;

pub open spec fn is_digit(c: char) -> bool {
    '0' <= c && c <= '9'
}

pub open spec fn all_digits(s: Seq<char>) -> bool {
    forall|i: int| 0 <= i < s.len() ==> is_digit(#[trigger] s[i])
}

/// The number written by a run of decimal digits.
pub open spec fn digits_value(s: Seq<char>) -> int
    decreases s.len(),
{
    if s.len() == 0 {
        0
    } else {
        digits_value(s.drop_last()) * 10 + (s.last() as int - '0' as int)
    }
}

/// The signed 32-bit integer written by `t`: an optional `+` or `-`, then
/// at least one decimal digit, and nothing else; `None` where `t` has
/// another form or the number does not fit.
pub open spec fn parsed_i32(t: Seq<char>) -> Option<i32> {
    let signed = t.len() > 0 && (t[0] == '-' || t[0] == '+');
    let body = if signed { t.drop_first() } else { t };
    let v = if signed && t[0] == '-' { -digits_value(body) } else { digits_value(body) };
    if body.len() == 0 || !all_digits(body) || v < i32::MIN || v > i32::MAX {
        None
    } else {
        Some(v as i32)
    }
}

/// The model of a value: its boolean, integer and string facets.
pub type ValueView = (bool, i32, Seq<char>);

pub open spec fn is_bool_text(t: Seq<char>) -> bool {
    t == "true"@ || t == "false"@
}

/// The value whose string facet is `t`, with the two other facets derived
/// from it.
pub open spec fn value_of(t: Seq<char>) -> ValueView {
    let i = if is_bool_text(t) {
        -1i32
    } else {
        match parsed_i32(t) {
            Some(n) => n,
            None => -1i32,
        }
    };
    (t == "true"@, i, t)
}

/// One device property: the string facet `s` is authoritative, `b` and `i`
/// are read from it.
#[derive(Debug)]
pub struct Value {
    pub b: bool,
    pub i: i32,
    pub s: String,
}

impl View for Value {
    type V = ValueView;

    open spec fn view(&self) -> ValueView {
        (self.b, self.i, self.s@)
    }
}

impl Value {
    /// Whether the boolean and integer facets are those derived from `s`.
    pub open spec fn wf(&self) -> bool {
        self@ == value_of(self.s@)
    }

    /// The value with an empty string facet.
    pub fn new() -> (r: Value)
        ensures
            r@ == value_of(Seq::empty()),
            r.wf(),
    {
        proof {
            reveal_strlit("true");
            reveal_strlit("false");
        }
        let r = Value { b: false, i: -1, s: String::new() };
        assert(parsed_i32(r.s@) is None);
        r
    }

    /// The value whose string facet is `text`.
    pub fn from_text(text: &str) -> (r: Value)
        ensures
            r@ == value_of(text@),
            r.wf(),
    {
        let s = String::from_str(text);
        let t = String::from_str("true");
        let f = String::from_str("false");
        let is_true = s == t;
        let is_false = s == f;
        let i: i32 = if is_true || is_false {
            -1
        } else {
            match parse_i32(text) {
                Some(n) => n,
                None => -1,
            }
        };
        Value { b: is_true, i, s }
    }

    /// The string facet.
    pub fn to_string(&self) -> (r: String)
        ensures
            r@ == self.s@,
    {
        self.s.clone()
    }

    /// A copy with the same facets.
    pub fn copy(&self) -> (r: Value)
        ensures
            r@ == self@,
    {
        Value { b: self.b, i: self.i, s: self.s.clone() }
    }
}

/// Values are equal when their string facets are.
impl PartialEq for Value {
    fn eq(&self, other: &Value) -> (r: bool) {
        self.s == other.s
    }
}

impl vstd::std_specs::cmp::PartialEqSpecImpl for Value {
    open spec fn obeys_eq_spec() -> bool {
        true
    }

    open spec fn eq_spec(&self, other: &Value) -> bool {
        self.s@ == other.s@
    }
}

/// Equality of values is that of their string facets: it is reflexive, and
/// the boolean and integer facets play no part in it.
pub proof fn lemma_value_eq_by_string(a: Value, b: Value)
    ensures
        a.eq_spec(&a),
        a.eq_spec(&b) <==> a.s@ == b.s@,
        (a.s@ == b.s@ && (a.b != b.b || a.i != b.i)) ==> a.eq_spec(&b),
{
}

proof fn lemma_digits_grow(s: Seq<char>)
    requires
        s.len() > 0,
        all_digits(s),
    ensures
        digits_value(s) >= digits_value(s.drop_last()),
        digits_value(s.drop_last()) >= 0,
    decreases s.len(),
{
    if s.len() > 1 {
        let p = s.drop_last();
        assert(all_digits(p)) by {
            assert forall|i: int| 0 <= i < p.len() implies is_digit(#[trigger] p[i]) by {
                assert(p[i] == s[i]);
            }
        }
        lemma_digits_grow(p);
    } else {
        assert(s.drop_last().len() == 0);
    }
    assert(is_digit(s[s.len() - 1]));
}

/// Reads `text` as a signed 32-bit decimal integer.
pub fn parse_i32(text: &str) -> (r: Option<i32>)
    ensures
        r == parsed_i32(text@),
{
    let n = text.unicode_len();
    let mut start: usize = 0;
    let mut negative = false;
    if n > 0 {
        let c = text.get_char(0);
        if c == '-' || c == '+' {
            start = 1;
            negative = c == '-';
        }
    }
    let ghost body = if start == 1 { text@.drop_first() } else { text@ };
    if start >= n {
        return None;
    }
    let mut acc: i64 = 0;
    let mut big = false;
    let mut k: usize = start;
    while k < n
        invariant
            start <= k <= n,
            n == text@.len(),
            start <= 1,
            (start == 1) == (text@.len() > 0 && (text@[0] == '-' || text@[0] == '+')),
            negative == (start == 1 && text@[0] == '-'),
            body == text@.subrange(start as int, n as int),
            forall|j: int| 0 <= j < k - start ==> is_digit(#[trigger] body[j]),
            !big ==> acc == digits_value(body.take(k - start)),
            !big ==> 0 <= acc <= MAGNITUDE_LIMIT,
            big ==> digits_value(body.take(k - start)) > MAGNITUDE_LIMIT,
        decreases n - k,
    {
        let c = text.get_char(k);
        if !('0' <= c && c <= '9') {
            assert(body[k - start] == c);
            assert(!all_digits(body));
            return None;
        }
        let ghost prev = body.take(k - start);
        let ghost next = body.take(k - start + 1);
        assert(next.drop_last() == prev);
        assert(next.last() == c);
        assert(body[k - start] == c);
        proof {
            assert(all_digits(next));
            lemma_digits_grow(next);
        }
        if !big {
            let d = (c as u32 - '0' as u32) as i64;
            let v = acc * 10 + d;
            if v > MAGNITUDE_LIMIT {
                big = true;
            } else {
                acc = v;
            }
        }
        k = k + 1;
    }
    assert(body.take(n - start) == body);
    assert(all_digits(body));
    if big {
        return None;
    }
    let v: i64 = if negative { -acc } else { acc };
    if v < -2147483648 || v > 2147483647 {
        None
    } else {
        Some(v as i32)
    }
}

} // verus!
