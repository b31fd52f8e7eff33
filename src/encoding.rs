use crate::text::push_char;
use vstd::prelude::*;

verus! {

/// The escape sequence that stands for one character of a manifest path.
pub open spec fn encode_char(c: char) -> Seq<char> {
    if c == '\r' {
        seq!['%', '0', 'D']
    } else if c == '\n' {
        seq!['%', '0', 'A']
    } else if c == '%' {
        seq!['%', '2', '5']
    } else {
        seq![c]
    }
}

/// Percent encoding of CR, LF and `%`; every other character is kept.
pub open spec fn encode_spec(s: Seq<char>) -> Seq<char>
    decreases s.len(),
{
    if s.len() == 0 {
        Seq::empty()
    } else {
        encode_char(s[0]) + encode_spec(s.drop_first())
    }
}

/// The character that a three-character escape stands for, if it is one of the three.
pub open spec fn escape_value(a: char, b: char, c: char) -> Option<char> {
    if a != '%' {
        None
    } else if b == '0' && c == 'D' {
        Some('\r')
    } else if b == '0' && c == 'A' {
        Some('\n')
    } else if b == '2' && c == '5' {
        Some('%')
    } else {
        None
    }
}

/// Decoding of the three escapes; anything else is kept as it stands.
pub open spec fn decode_spec(s: Seq<char>) -> Seq<char>
    decreases s.len(),
{
    if s.len() == 0 {
        Seq::empty()
    } else if s.len() >= 3 && escape_value(s[0], s[1], s[2]).is_some() {
        seq![escape_value(s[0], s[1], s[2]).unwrap()] + decode_spec(s.subrange(3, s.len() as int))
    } else {
        seq![s[0]] + decode_spec(s.drop_first())
    }
}

pub open spec fn is_special(c: char) -> bool {
    c == '\r' || c == '\n' || c == '%'
}

pub open spec fn has_special(s: Seq<char>) -> bool {
    exists|i: int| 0 <= i < s.len() && is_special(#[trigger] s[i])
}

proof fn lemma_encode_step(s: Seq<char>, i: int)
    requires
        0 <= i < s.len(),
    ensures
        encode_spec(s.subrange(i, s.len() as int)) == encode_char(s[i]) + encode_spec(
            s.subrange(i + 1, s.len() as int),
        ),
{
    let t = s.subrange(i, s.len() as int);
    assert(t.drop_first() =~= s.subrange(i + 1, s.len() as int));
}

proof fn lemma_decode_step(s: Seq<char>, i: int)
    requires
        0 <= i < s.len(),
    ensures
        (i + 3 <= s.len() && escape_value(s[i], s[i + 1], s[i + 2]).is_some()) ==> decode_spec(
            s.subrange(i, s.len() as int),
        ) == seq![escape_value(s[i], s[i + 1], s[i + 2]).unwrap()] + decode_spec(
            s.subrange(i + 3, s.len() as int),
        ),
        !(i + 3 <= s.len() && escape_value(s[i], s[i + 1], s[i + 2]).is_some()) ==> decode_spec(
            s.subrange(i, s.len() as int),
        ) == seq![s[i]] + decode_spec(s.subrange(i + 1, s.len() as int)),
{
    let t = s.subrange(i, s.len() as int);
    assert(t.drop_first() =~= s.subrange(i + 1, s.len() as int));
    if i + 3 <= s.len() {
        assert(t.subrange(3, t.len() as int) =~= s.subrange(i + 3, s.len() as int));
    }
}

/// Decoding undoes encoding, encoding leaves a string without CR, LF or `%` as it is, and
/// every `%` that encoding writes begins an escape.
pub proof fn lemma_percent_round_trip(s: Seq<char>)
    ensures
        decode_spec(encode_spec(s)) == s,
        well_encoded(encode_spec(s)),
        !has_special(s) ==> encode_spec(s) == s,
    decreases s.len(),
{
    if s.len() > 0 {
        let rest = s.drop_first();
        lemma_percent_round_trip(rest);
        let e = encode_spec(s);
        assert(e == encode_char(s[0]) + encode_spec(rest));
        if is_special(s[0]) {
            assert(e.subrange(3, e.len() as int) =~= encode_spec(rest));
        } else {
            assert(e.drop_first() =~= encode_spec(rest));
        }
        assert(well_encoded(e));
        assert(decode_spec(e) =~= s);
        if !has_special(s) {
            assert forall|i: int| 0 <= i < rest.len() implies !is_special(#[trigger] rest[i]) by {
                assert(rest[i] == s[i + 1]);
            }
            assert(encode_spec(s) =~= s);
        }
    }
}

/// Percent encodes any CR, LF, or `%` characters of the input.
pub fn percent_encode(value: &str) -> (r: String)
    ensures
        r@ == encode_spec(value@),
{
    let n = value.unicode_len();
    let mut out = String::new();
    let mut i: usize = 0;
    assert(value@.subrange(0, n as int) =~= value@);
    assert(out@ + encode_spec(value@) =~= encode_spec(value@));
    while i < n
        invariant
            n == value@.len(),
            0 <= i <= n,
            out@ + encode_spec(value@.subrange(i as int, n as int)) == encode_spec(value@),
        decreases n - i,
    {
        let c = value.get_char(i);
        proof {
            lemma_encode_step(value@, i as int);
        }
        if c == '\r' {
            push_char(&mut out, '%');
            push_char(&mut out, '0');
            push_char(&mut out, 'D');
        } else if c == '\n' {
            push_char(&mut out, '%');
            push_char(&mut out, '0');
            push_char(&mut out, 'A');
        } else if c == '%' {
            push_char(&mut out, '%');
            push_char(&mut out, '2');
            push_char(&mut out, '5');
        } else {
            push_char(&mut out, c);
        }
        assert(out@ + encode_spec(value@.subrange(i + 1, n as int)) =~= encode_spec(value@));
        i = i + 1;
    }
    assert(value@.subrange(n as int, n as int) =~= Seq::<char>::empty());
    assert(out@ =~= encode_spec(value@));
    out
}

/// Every `%` of the text begins one of the three escapes `%0D`, `%0A` and `%25`.
pub open spec fn well_encoded(s: Seq<char>) -> bool
    decreases s.len(),
{
    if s.len() == 0 {
        true
    } else if s[0] == '%' {
        s.len() >= 3 && escape_value(s[0], s[1], s[2]).is_some() && well_encoded(s.subrange(3, s.len() as int))
    } else {
        well_encoded(s.drop_first())
    }
}

/// Decodes the escapes `%0D`, `%0A` and `%25`; anything else is kept as it stands.
pub fn percent_decode(value: &str) -> (r: String)
    ensures
        r@ == decode_spec(value@),
{
    let cs = crate::text::chars_of(value);
    let n = cs.len();
    let mut out = String::new();
    let mut i: usize = 0;
    assert(value@.subrange(0, n as int) =~= value@);
    assert(out@ + decode_spec(value@) =~= decode_spec(value@));
    while i < n
        invariant
            n == value@.len(),
            cs@ == value@,
            0 <= i <= n,
            out@ + decode_spec(value@.subrange(i as int, n as int)) == decode_spec(value@),
        decreases n - i,
    {
        proof {
            lemma_decode_step(value@, i as int);
        }
        let c = cs[i];
        if c == '%' && n - i > 2 && cs[i + 1] == '0' && cs[i + 2] == 'D' {
            push_char(&mut out, '\r');
            assert(out@ + decode_spec(value@.subrange(i + 3, n as int)) =~= decode_spec(value@));
            i = i + 3;
        } else if c == '%' && n - i > 2 && cs[i + 1] == '0' && cs[i + 2] == 'A' {
            push_char(&mut out, '\n');
            assert(out@ + decode_spec(value@.subrange(i + 3, n as int)) =~= decode_spec(value@));
            i = i + 3;
        } else if c == '%' && n - i > 2 && cs[i + 1] == '2' && cs[i + 2] == '5' {
            push_char(&mut out, '%');
            assert(out@ + decode_spec(value@.subrange(i + 3, n as int)) =~= decode_spec(value@));
            i = i + 3;
        } else {
            push_char(&mut out, c);
            assert(out@ + decode_spec(value@.subrange(i + 1, n as int)) =~= decode_spec(value@));
            i = i + 1;
        }
    }
    assert(value@.subrange(n as int, n as int) =~= Seq::<char>::empty());
    assert(out@ =~= decode_spec(value@));
    out
}

/// Tests whether every `%` of the text begins one of the three escapes.
pub fn is_well_encoded(value: &str) -> (r: bool)
    ensures
        r == well_encoded(value@),
{
    let cs = crate::text::chars_of(value);
    let n = cs.len();
    let mut i: usize = 0;
    assert(value@.subrange(0, n as int) =~= value@);
    while i < n
        invariant
            n == value@.len(),
            cs@ == value@,
            0 <= i <= n,
            well_encoded(value@) == well_encoded(value@.subrange(i as int, n as int)),
        decreases n - i,
    {
        let ghost t = value@.subrange(i as int, n as int);
        if cs[i] == '%' {
            if n - i > 2 && escape_value_exec(cs[i], cs[i + 1], cs[i + 2]) {
                assert(t.subrange(3, t.len() as int) =~= value@.subrange(i + 3, n as int));
                i = i + 3;
            } else {
                return false;
            }
        } else {
            assert(t.drop_first() =~= value@.subrange(i + 1, n as int));
            i = i + 1;
        }
    }
    assert(value@.subrange(n as int, n as int) =~= Seq::<char>::empty());
    true
}

fn escape_value_exec(a: char, b: char, c: char) -> (r: bool)
    ensures
        r == escape_value(a, b, c).is_some(),
{
    a == '%' && ((b == '0' && c == 'D') || (b == '0' && c == 'A') || (b == '2' && c == '5'))
}

} // verus!
