use vstd::prelude::*;
use vstd::string::StrSliceExecFns;
use vstd::string::StringSliceAdditionalSpecFns;

verus! {

/// The uppercase hexadecimal digit for a value below sixteen.
pub open spec fn hex_upper(n: u8) -> char {
    if n < 10 {
        (n + 48) as char
    } else {
        (n + 55) as char
    }
}

/// Bytes that the `application/x-www-form-urlencoded` serialization leaves
/// unchanged: ASCII alphanumerics and `*`, `-`, `.`, `_`.
pub open spec fn form_unreserved(b: u8) -> bool {
    ||| b == 42
    ||| b == 45
    ||| b == 46
    ||| b == 95
    ||| 48 <= b <= 57
    ||| 65 <= b <= 90
    ||| 97 <= b <= 122
}

/// How one byte is written in a form-urlencoded query value: space becomes
/// `+`, unreserved bytes stand as themselves, everything else as `%XX` with
/// uppercase hexadecimal digits.
pub open spec fn form_encoded_byte(b: u8) -> Seq<char> {
    if b == 32 {
        seq!['+']
    } else if form_unreserved(b) {
        seq![b as char]
    } else {
        seq!['%', hex_upper(b / 16), hex_upper(b % 16)]
    }
}

/// The form-urlencoded serialization of a byte string.
pub open spec fn form_encoded_bytes(bs: Seq<u8>) -> Seq<char>
    decreases bs.len(),
{
    if bs.len() == 0 {
        Seq::<char>::empty()
    } else {
        form_encoded_byte(bs[0]) + form_encoded_bytes(bs.drop_first())
    }
}

pub proof fn lemma_form_encoded_snoc(bs: Seq<u8>, b: u8)
    ensures
        form_encoded_bytes(bs.push(b)) == form_encoded_bytes(bs) + form_encoded_byte(b),
    decreases bs.len(),
{
    if bs.len() == 0 {
        assert(bs.push(b)[0] == b);
        assert(bs.push(b).drop_first() =~= Seq::<u8>::empty());
        assert(form_encoded_bytes(bs.push(b)) =~= form_encoded_byte(b) + form_encoded_bytes(
            Seq::<u8>::empty(),
        ));
        assert(form_encoded_bytes(Seq::<u8>::empty()) =~= Seq::<char>::empty());
        assert(form_encoded_bytes(bs.push(b)) =~= form_encoded_byte(b));
        assert(form_encoded_bytes(bs) + form_encoded_byte(b) =~= form_encoded_byte(b));
    } else {
        assert(bs.push(b).drop_first() =~= bs.drop_first().push(b));
        lemma_form_encoded_snoc(bs.drop_first(), b);
        assert(form_encoded_bytes(bs.push(b)) =~= form_encoded_bytes(bs) + form_encoded_byte(b));
    }
}

fn hex_upper_digit(n: u8) -> (c: char)
    requires
        n < 16,
    ensures
        c == hex_upper(n),
{
    if n < 10 {
        (n + 48) as char
    } else {
        (n + 55) as char
    }
}

fn form_unreserved_exec(b: u8) -> (r: bool)
    ensures
        r == form_unreserved(b),
{
    b == 42 || b == 45 || b == 46 || b == 95 || (48 <= b && b <= 57) || (65 <= b && b <= 90) || (
    97 <= b && b <= 122)
}

/// Form-urlencodes the UTF-8 bytes of a string, as a query value is encoded
/// when it is appended to a URL's query string.
pub fn form_encode(s: &str) -> (r: Vec<char>)
    ensures
        r@ == form_encoded_bytes(s.spec_bytes()),
{
    let bs = s.as_bytes_vec();
    let mut out: Vec<char> = Vec::new();
    let mut i: usize = 0;
    while i < bs.len()
        invariant
            i <= bs@.len(),
            bs@ == s.spec_bytes(),
            out@ == form_encoded_bytes(bs@.subrange(0, i as int)),
        decreases bs@.len() - i,
    {
        let b = bs[i];
        if b == 32 {
            out.push('+');
        } else if form_unreserved_exec(b) {
            out.push(b as char);
        } else {
            out.push('%');
            out.push(hex_upper_digit(b / 16));
            out.push(hex_upper_digit(b % 16));
        }
        proof {
            lemma_form_encoded_snoc(bs@.subrange(0, i as int), bs@[i as int]);
            assert(bs@.subrange(0, i + 1 as int) =~= bs@.subrange(0, i as int).push(bs@[i as int]));
            assert(out@ =~= form_encoded_bytes(bs@.subrange(0, i + 1 as int)));
        }
        i += 1;
    }
    proof {
        assert(bs@.subrange(0, bs@.len() as int) =~= bs@);
    }
    out
}

} // verus!
