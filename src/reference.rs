use vstd::prelude::*;

verus! {

/// Why a text is not an identifier.
#[derive(Copy, Clone, PartialEq, Eq, Structural, Debug)]
pub enum ZidParseError {
    /// The text is empty (or neither component is given).
    Empty,
    /// The text before the `K` does not start with `Z`.
    MissingZ,
    /// A number part is empty or holds a character that is not a decimal digit.
    NotDecimal,
    /// A number part does not fit in 64 bits.
    TooLarge,
    /// A component is zero.
    Zero,
    /// A number part starts with the digit zero.
    LeadingZero,
    /// Something follows the number after the `K`.
    ExtraCharacters,
}

/// An identifier (ZID): `Z<z>`, `Z<z>K<k>` or `K<k>`. A component of zero
/// stands for an absent one, so that the derived order (absent before present,
/// then by value) is the lexicographic order on `(z, k)`.
#[derive(Copy, Clone, Hash, PartialEq, Eq, Structural, PartialOrd, Ord, Debug)]
pub struct Reference {
    z: u64,
    k: u64,
}

pub type Zid = Reference;

pub open spec fn is_digit(c: char) -> bool {
    '0' <= c && c <= '9'
}

pub open spec fn digit_value(c: char) -> nat {
    (c as nat - '0' as nat) as nat
}

pub open spec fn digit_char(d: nat) -> char {
    ((d + '0' as nat) as u32) as char
}

pub open spec fn all_digits(s: Seq<char>) -> bool {
    forall|i: int| 0 <= i < s.len() ==> is_digit(#[trigger] s[i])
}

/// The number that a string of decimal digits denotes.
pub open spec fn decimal_value(s: Seq<char>) -> nat
    decreases s.len(),
{
    if s.len() == 0 {
        0
    } else {
        decimal_value(s.drop_last()) * 10 + digit_value(s.last())
    }
}

/// The decimal writing of `n`, without leading zeros.
pub open spec fn decimal_text(n: nat) -> Seq<char>
    decreases n,
{
    if n < 10 {
        seq![digit_char(n)]
    } else {
        decimal_text(n / 10).push(digit_char(n % 10))
    }
}

/// A positive component written in decimal, without leading zeros.
pub open spec fn number_part(s: Seq<char>) -> Result<u64, ZidParseError> {
    if s.len() == 0 || !all_digits(s) {
        Err(ZidParseError::NotDecimal)
    } else if s[0] == '0' {
        if s.len() == 1 {
            Err(ZidParseError::Zero)
        } else {
            Err(ZidParseError::LeadingZero)
        }
    } else if decimal_value(s) > u64::MAX {
        Err(ZidParseError::TooLarge)
    } else {
        Ok(decimal_value(s) as u64)
    }
}

/// The position of the first `K` in `s`, or its length if there is none.
pub open spec fn k_pos(s: Seq<char>) -> int
    decreases s.len(),
{
    if s.len() == 0 {
        0
    } else if s[0] == 'K' {
        0
    } else {
        1 + k_pos(s.drop_first())
    }
}

/// The grammar `('Z' digits)? ('K' digits)?`, read as `(z, k)` with 0 for an
/// absent component.
pub open spec fn zid_parse(s: Seq<char>) -> Result<(u64, u64), ZidParseError> {
    let p = k_pos(s);
    let before = s.subrange(0, p);
    let z: Result<u64, ZidParseError> = if before.len() == 0 {
        Ok(0u64)
    } else if before[0] != 'Z' {
        Err(ZidParseError::MissingZ)
    } else {
        number_part(before.drop_first())
    };
    if s.len() == 0 {
        Err(ZidParseError::Empty)
    } else if z is Err {
        Err(z->Err_0)
    } else if p == s.len() {
        Ok((z->Ok_0, 0u64))
    } else {
        let after = s.subrange(p + 1, s.len() as int);
        let q = k_pos(after);
        let k = number_part(after.subrange(0, q));
        if k is Err {
            Err(k->Err_0)
        } else if q < after.len() {
            Err(ZidParseError::ExtraCharacters)
        } else {
            Ok((z->Ok_0, k->Ok_0))
        }
    }
}

/// The identifier that a text denotes.
pub open spec fn text_id(s: Seq<char>) -> Result<Reference, ZidParseError> {
    match zid_parse(s) {
        Ok((z, k)) => Ok(zid(z, k)),
        Err(e) => Err(e),
    }
}

/// The canonical text of the identifier with components `z` and `k`.
pub open spec fn zid_text(z: u64, k: u64) -> Seq<char> {
    (if z == 0 {
        Seq::<char>::empty()
    } else {
        seq!['Z'] + decimal_text(z as nat)
    }) + (if k == 0 {
        Seq::<char>::empty()
    } else {
        seq!['K'] + decimal_text(k as nat)
    })
}

/// The identifier `Z<z>K<k>` (a zero component being absent).
pub open spec fn zid(z: u64, k: u64) -> Reference {
    Reference::spec_new(z, k)
}

pub broadcast group group_reference {
    Reference::lemma_spec_new,
    Reference::lemma_spec_new_parts,
}

pub open spec fn components_valid(z: Option<u64>, k: Option<u64>) -> bool {
    !(z is None && k is None) && z != Some(0u64) && k != Some(0u64)
}

pub open spec fn component(o: Option<u64>) -> u64 {
    match o {
        Some(v) => v,
        None => 0,
    }
}

impl Reference {
    #[verifier::type_invariant]
    spec fn inv(self) -> bool {
        self.z != 0 || self.k != 0
    }

    /// The `Z` component, 0 when absent.
    pub closed spec fn z_part(self) -> u64 {
        self.z
    }

    /// The `K` component, 0 when absent.
    pub closed spec fn k_part(self) -> u64 {
        self.k
    }

    /// The identifier with components `z` and `k`.
    pub closed spec fn spec_new(z: u64, k: u64) -> Reference {
        Reference { z, k }
    }

    pub broadcast proof fn lemma_spec_new(z: u64, k: u64)
        ensures
            #[trigger] Reference::spec_new(z, k).z_part() == z,
            Reference::spec_new(z, k).k_part() == k,
    {
    }

    pub broadcast proof fn lemma_spec_new_parts(r: Reference)
        ensures
            #[trigger] Reference::spec_new(r.z_part(), r.k_part()) == r,
    {
    }

    pub open spec fn spec_text(self) -> Seq<char> {
        zid_text(self.z_part(), self.k_part())
    }

    /// The order on identifiers: by `z`, then by `k`.
    pub open spec fn spec_lt(self, other: Reference) -> bool {
        self.z_part() < other.z_part() || (self.z_part() == other.z_part() && self.k_part()
            < other.k_part())
    }

    /// Two identifiers with the same components are the same.
    pub proof fn lemma_parts_determine(a: Reference, b: Reference)
        requires
            a.z_part() == b.z_part(),
            a.k_part() == b.k_part(),
        ensures
            a == b,
    {
    }

    /// The `Z` component.
    pub fn get_z(&self) -> (r: Option<u64>)
        ensures
            r == (if self.z_part() == 0 {
                None
            } else {
                Some(self.z_part())
            }),
    {
        if self.z == 0 {
            None
        } else {
            Some(self.z)
        }
    }

    /// The `Z` component, 0 when absent.
    pub fn get_z_value(&self) -> (r: u64)
        ensures
            r == self.z_part(),
    {
        self.z
    }

    /// The `K` component, 0 when absent.
    pub fn get_k_value(&self) -> (r: u64)
        ensures
            r == self.k_part(),
    {
        self.k
    }

    /// The `K` component.
    pub fn get_k(&self) -> (r: Option<u64>)
        ensures
            r == (if self.k_part() == 0 {
                None
            } else {
                Some(self.k_part())
            }),
    {
        if self.k == 0 {
            None
        } else {
            Some(self.k)
        }
    }

    /// `self < other` in the order of identifiers.
    pub fn less_than(&self, other: &Reference) -> (r: bool)
        ensures
            r == self.spec_lt(*other),
    {
        self.z < other.z || (self.z == other.z && self.k < other.k)
    }

    /// The identifier with the given components: fails when both are absent
    /// or one is zero.
    pub fn from_u64s(z: Option<u64>, k: Option<u64>) -> (r: Result<Self, ZidParseError>)
        ensures
            r is Ok <==> components_valid(z, k),
            r matches Ok(v) ==> v.z_part() == component(z) && v.k_part() == component(k),
            z is None && k is None ==> r == Err::<Self, ZidParseError>(ZidParseError::Empty),
            !(z is None && k is None) && !components_valid(z, k) ==> r == Err::<
                Self,
                ZidParseError,
            >(ZidParseError::Zero),
    {
        if z.is_none() && k.is_none() {
            return Err(ZidParseError::Empty);
        }
        let zv: u64 = match z {
            Some(v) => {
                if v == 0 {
                    return Err(ZidParseError::Zero);
                }
                v
            },
            None => 0,
        };
        let kv: u64 = match k {
            Some(v) => {
                if v == 0 {
                    return Err(ZidParseError::Zero);
                }
                v
            },
            None => 0,
        };
        Ok(Reference { z: zv, k: kv })
    }

    /// The identifier with the given components, which the caller knows to be
    /// valid (a constant of the language).
    pub fn from_u64s_panic(z: Option<u64>, k: Option<u64>) -> (r: Self)
        requires
            components_valid(z, k),
        ensures
            r.z_part() == component(z),
            r.k_part() == component(k),
    {
        let zv: u64 = match z {
            Some(v) => v,
            None => 0,
        };
        let kv: u64 = match k {
            Some(v) => v,
            None => 0,
        };
        Reference { z: zv, k: kv }
    }

    /// `Z<z>K<k>` with both components present (a constant of the language).
    pub fn zk(z: u64, k: u64) -> (r: Self)
        requires
            z > 0 || k > 0,
        ensures
            r == zid(z, k),
    {
        Reference { z, k }
    }

    /// The canonical text of the identifier.
    pub fn to_zid(&self) -> (r: String)
        ensures
            r@ == self.spec_text(),
    {
        let mut s = String::new();
        if self.z != 0 {
            s.append(letter_str(true));
            push_decimal(&mut s, self.z);
        }
        if self.k != 0 {
            s.append(letter_str(false));
            push_decimal(&mut s, self.k);
        }
        s
    }

    /// Reads an identifier from its text.
    pub fn from_zid(text: &str) -> (r: Result<Self, ZidParseError>)
        ensures
            r matches Ok(v) ==> zid_parse(text@) == Ok::<(u64, u64), ZidParseError>(
                (v.z_part(), v.k_part()),
            ),
            r matches Err(e) ==> zid_parse(text@) == Err::<(u64, u64), ZidParseError>(e),
            r == text_id(text@),
    {
        let chars = text_chars(text);
        let n = chars.len();
        if n == 0 {
            return Err(ZidParseError::Empty);
        }
        let p = find_k(&chars, 0);
        proof {
            lemma_k_pos_shift(chars@, 0);
            assert(chars@.subrange(0, n as int) == chars@);
        }
        let z: u64 = if p == 0 {
            0
        } else if chars[0] != 'Z' {
            return Err(ZidParseError::MissingZ);
        } else {
            proof {
                assert(chars@.subrange(0, p as int).drop_first() == chars@.subrange(1, p as int));
            }
            match parse_number(&chars, 1, p) {
                Ok(v) => v,
                Err(e) => return Err(e),
            }
        };
        if p == n {
            proof {
                reveal_with_fuel(k_pos, 1);
            }
            return Ok(Reference { z, k: 0 });
        }
        let q = find_k(&chars, p + 1);
        proof {
            let after = chars@.subrange(p + 1, n as int);
            lemma_k_pos_shift(chars@, p + 1);
            assert(after.subrange(0, k_pos(after)) == chars@.subrange(p + 1, q as int));
        }
        let k = match parse_number(&chars, p + 1, q) {
            Ok(v) => v,
            Err(e) => return Err(e),
        };
        if q < n {
            return Err(ZidParseError::ExtraCharacters);
        }
        Ok(Reference { z, k })
    }
}

fn letter_str(z: bool) -> (r: &'static str)
    ensures
        r@ == (if z {
            seq!['Z']
        } else {
            seq!['K']
        }),
{
    if z {
        proof {
            reveal_strlit("Z");
        }
        "Z"
    } else {
        proof {
            reveal_strlit("K");
        }
        "K"
    }
}

fn digit_str(d: u64) -> (r: &'static str)
    requires
        d < 10,
    ensures
        r@ == seq![digit_char(d as nat)],
{
    if d == 0 {
        proof { reveal_strlit("0"); }
        "0"
    } else if d == 1 {
        proof { reveal_strlit("1"); }
        "1"
    } else if d == 2 {
        proof { reveal_strlit("2"); }
        "2"
    } else if d == 3 {
        proof { reveal_strlit("3"); }
        "3"
    } else if d == 4 {
        proof { reveal_strlit("4"); }
        "4"
    } else if d == 5 {
        proof { reveal_strlit("5"); }
        "5"
    } else if d == 6 {
        proof { reveal_strlit("6"); }
        "6"
    } else if d == 7 {
        proof { reveal_strlit("7"); }
        "7"
    } else if d == 8 {
        proof { reveal_strlit("8"); }
        "8"
    } else {
        proof { reveal_strlit("9"); }
        "9"
    }
}

/// Appends the decimal writing of `n`.
pub fn push_decimal(s: &mut String, n: u64)
    ensures
        final(s)@ == old(s)@ + decimal_text(n as nat),
    decreases n,
{
    if n >= 10 {
        push_decimal(s, n / 10);
    }
    s.append(digit_str(n % 10));
    proof {
        assert(decimal_text(n as nat) == (if n < 10 {
            seq![digit_char(n as nat)]
        } else {
            decimal_text((n / 10) as nat).push(digit_char((n % 10) as nat))
        }));
    }
}

/// The characters of `text`, in order.
pub(crate) fn text_chars(text: &str) -> (r: Vec<char>)
    ensures
        r@ == text@,
{
    let mut v: Vec<char> = Vec::new();
    for c in it: text.chars()
        invariant
            v@ == it.seq().subrange(0, it.index() as int),
            it.seq() == text@,
    {
        v.push(c);
    }
    v
}

proof fn lemma_k_pos_shift(s: Seq<char>, from: int)
    requires
        0 <= from <= s.len(),
    ensures
        0 <= k_pos(s.subrange(from, s.len() as int)) <= s.len() - from,
        forall|j: int|
            from <= j < from + k_pos(s.subrange(from, s.len() as int)) ==> s[j] != 'K',
        from + k_pos(s.subrange(from, s.len() as int)) < s.len() ==> s[from + k_pos(
            s.subrange(from, s.len() as int),
        )] == 'K',
    decreases s.len() - from,
{
    let t = s.subrange(from, s.len() as int);
    if t.len() > 0 && t[0] != 'K' {
        lemma_k_pos_shift(s, from + 1);
        assert(t.drop_first() == s.subrange(from + 1, s.len() as int));
    }
}

/// The first position at or after `from` that holds `K`, or the length.
fn find_k(chars: &Vec<char>, from: usize) -> (r: usize)
    requires
        from <= chars.len(),
    ensures
        r == from + k_pos(chars@.subrange(from as int, chars.len() as int)),
{
    let mut i = from;
    while i < chars.len() && chars[i] != 'K'
        invariant
            from <= i <= chars.len(),
            forall|j: int| from <= j < i ==> chars@[j] != 'K',
        decreases chars.len() - i,
    {
        i = i + 1;
    }
    proof {
        lemma_k_pos_shift(chars@, from as int);
    }
    i
}

proof fn lemma_decimal_prefix(s: Seq<char>, i: int)
    requires
        0 <= i <= s.len(),
    ensures
        decimal_value(s.subrange(0, i)) <= decimal_value(s),
    decreases s.len() - i,
{
    if i < s.len() {
        lemma_decimal_prefix(s, i + 1);
        assert(s.subrange(0, i + 1).drop_last() == s.subrange(0, i));
    } else {
        assert(s.subrange(0, i) == s);
    }
}

/// The component written at `chars[from..to]`.
fn parse_number(chars: &Vec<char>, from: usize, to: usize) -> (r: Result<u64, ZidParseError>)
    requires
        from <= to <= chars.len(),
    ensures
        r == number_part(chars@.subrange(from as int, to as int)),
        r matches Ok(v) ==> v > 0,
{
    let ghost s = chars@.subrange(from as int, to as int);
    if from == to {
        return Err(ZidParseError::NotDecimal);
    }
    let mut i = from;
    while i < to
        invariant
            from <= i <= to <= chars.len(),
            s == chars@.subrange(from as int, to as int),
            forall|j: int| from <= j < i ==> is_digit(chars@[j]),
        decreases to - i,
    {
        if !('0' <= chars[i] && chars[i] <= '9') {
            proof {
                assert(!is_digit(s[i - from]));
            }
            return Err(ZidParseError::NotDecimal);
        }
        i = i + 1;
    }
    assert(all_digits(s)) by {
        assert forall|j: int| 0 <= j < s.len() implies is_digit(#[trigger] s[j]) by {
            assert(s[j] == chars@[from + j]);
        }
    }
    if chars[from] == '0' {
        if to - from == 1 {
            return Err(ZidParseError::Zero);
        }
        return Err(ZidParseError::LeadingZero);
    }
    proof {
        lemma_decimal_positive(s);
    }
    let mut value: u64 = 0;
    let mut i = from;
    while i < to
        invariant
            from <= i <= to <= chars.len(),
            s == chars@.subrange(from as int, to as int),
            all_digits(s),
            s.len() > 0,
            s[0] != '0',
            decimal_value(s) >= 1,
            value == decimal_value(s.subrange(0, i - from)),
        decreases to - i,
    {
        proof {
            assert(is_digit(s[i - from]));
        }
        let d = (chars[i] as u32 - '0' as u32) as u64;
        proof {
            assert(s.subrange(0, i + 1 - from).drop_last() == s.subrange(0, i - from));
            assert(s.subrange(0, i + 1 - from).last() == chars@[i as int]);
        }
        if value > (u64::MAX - d) / 10 {
            proof {
                assert(value * 10 + d > u64::MAX) by (nonlinear_arith)
                    requires
                        value > (u64::MAX - d) / 10,
                        d < 10,
                ;
                lemma_decimal_prefix(s, i + 1 - from);
            }
            return Err(ZidParseError::TooLarge);
        }
        proof {
            assert(value * 10 + d <= u64::MAX) by (nonlinear_arith)
                requires
                    value <= (u64::MAX - d) / 10,
                    d < 10,
            ;
        }
        value = value * 10 + d;
        i = i + 1;
    }
    assert(s.subrange(0, to - from) == s);
    Ok(value)
}


proof fn lemma_decimal_positive(d: Seq<char>)
    requires
        d.len() > 0,
        all_digits(d),
        d[0] != '0',
    ensures
        decimal_value(d) >= 1,
    decreases d.len(),
{
    if d.len() > 1 {
        lemma_decimal_positive(d.drop_last());
    } else {
        assert(is_digit(d[0]));
    }
}

proof fn lemma_decimal_round_trip(d: Seq<char>)
    requires
        d.len() > 0,
        all_digits(d),
        d[0] != '0',
    ensures
        decimal_text(decimal_value(d)) == d,
    decreases d.len(),
{
    let v = decimal_value(d);
    let c = d.last();
    assert(is_digit(d[d.len() - 1]));
    if d.len() == 1 {
        assert(v == digit_value(c));
        assert(decimal_text(v) == seq![digit_char(v)]);
        assert(seq![c] == d);
    } else {
        let p = d.drop_last();
        assert(p[0] == d[0]);
        lemma_decimal_positive(p);
        lemma_decimal_round_trip(p);
        let w = decimal_value(p);
        let dc = digit_value(c);
        assert(v == w * 10 + dc);
        assert(v / 10 == w && v % 10 == dc) by (nonlinear_arith)
            requires
                v == w * 10 + dc,
                dc < 10,
        ;
        assert(v >= 10);
        assert(decimal_text(v) == decimal_text(v / 10).push(digit_char(v % 10)));
        assert(p.push(c) == d);
    }
}

#[verifier::rlimit(40)]
/// Reading an identifier's text and writing the identifier back gives the
/// text again, for every accepted text whose numbers have no leading zero.
pub proof fn lemma_parse_then_format(t: Seq<char>)
    requires
        zid_parse(t) is Ok,
    ensures
        zid_text(zid_parse(t)->Ok_0.0, zid_parse(t)->Ok_0.1) == t,
{
    let (z, k) = zid_parse(t)->Ok_0;
    lemma_k_pos_shift(t, 0);
    assert(t.subrange(0, t.len() as int) == t);
    let p = k_pos(t);
    let before = t.subrange(0, p);
    let zpart: Seq<char> = if z == 0 {
        Seq::empty()
    } else {
        seq!['Z'] + decimal_text(z as nat)
    };
    if before.len() == 0 {
        assert(z == 0);
        assert(zpart == before);
    } else {
        let digits = before.drop_first();
        assert(before[0] == 'Z');
        assert(digits[0] == t[1]);
        assert(digits[0] != '0');
        lemma_decimal_round_trip(digits);
        assert(zpart == before);
    }
    if p == t.len() {
        assert(k == 0);
        assert(before == t);
        assert(zpart + Seq::<char>::empty() == t);
    } else {
        let after = t.subrange(p + 1, t.len() as int);
        let q = k_pos(after);
        lemma_k_pos_shift(t, p + 1);
        assert(q == after.len());
        assert(after.subrange(0, q) == after);
        assert(after[0] == t[p + 1]);
        assert(after[0] != '0');
        lemma_decimal_round_trip(after);
        assert(seq!['K'] + decimal_text(k as nat) == t.subrange(p, t.len() as int));
        assert(zpart + t.subrange(p, t.len() as int) == t);
    }
}


/// The text `Z6` denotes the identifier `Z6`.
pub proof fn lemma_text_z6()
    ensures
        text_id("Z6"@) == Ok::<Reference, ZidParseError>(zid(6, 0)),
{
    reveal_strlit("Z6");
    let s = "Z6"@;
    assert(s.drop_first() == seq!['6']);
    assert(k_pos(s.drop_first().drop_first()) == 0);
    assert(k_pos(s.drop_first()) == 1);
    assert(k_pos(s) == 2);
    assert(s.subrange(0, 2) == s);
    assert(decimal_value(seq!['6']) == 6) by {
        assert(seq!['6'].drop_last().len() == 0);
        assert(decimal_value(seq!['6'].drop_last()) == 0);
        assert(digit_value('6') == 6);
    }
}

} // verus!
