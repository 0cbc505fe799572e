use crate::envelope::AgentMessage;
use crate::text::push_char;
use vstd::prelude::*;
use vstd::slice::slice_to_vec;
use vstd::string::StringExecFns;
use vstd::utf8::encode_utf8;

verus! {

/// The JSON string literal that encodes `s`, quotes and escapes included.
pub uninterp spec fn json_string(s: Seq<char>) -> Seq<char>;

/// Relies on `serde_json::to_string` applied to a `str`: it writes the
/// quoted, escaped literal into a `Vec` and cannot fail there. Control
/// characters, the newline among them, are always escaped.
#[verifier::external_body]
fn json_quote(s: &str) -> (r: String)
    ensures
        r@ == json_string(s@),
        !r@.contains('\n'),
{
    match serde_json::to_string(s) {
        Ok(t) => t,
        Err(_) => String::new(),
    }
}

/// The character for a decimal digit.
pub open spec fn digit_char(d: nat) -> char
    recommends
        d < 10,
{
    ((d + 48) as u8) as char
}

/// The decimal notation of `n`, without leading zeros.
pub open spec fn decimal(n: nat) -> Seq<char>
    decreases n,
{
    if n < 10 {
        seq![digit_char(n)]
    } else {
        decimal(n / 10).push(digit_char(n % 10))
    }
}

/// The canonical text of an envelope: one JSON object with the fields id,
/// target, msg_type and content, in this order, without spaces.
pub open spec fn envelope_text(m: AgentMessage) -> Seq<char> {
    "{\"id\":"@ + decimal(m.id as nat) + ",\"target\":"@ + json_string(m.target@)
        + ",\"msg_type\":"@ + json_string(m.msg_type@) + ",\"content\":"@
        + json_string(m.content@) + "}"@
}

/// The byte that ends each line on the serial link.
pub const DELIMITER: u8 = 10;

/// The bytes that carry `m` on the serial link: its text, then a newline.
pub open spec fn frame(m: AgentMessage) -> Seq<u8> {
    encode_utf8(envelope_text(m)).push(DELIMITER)
}

/// Appends the decimal notation of `n` to `s`.
fn append_decimal(s: &mut String, n: u64)
    ensures
        final(s)@ == old(s)@ + decimal(n as nat),
    decreases n,
{
    if n >= 10 {
        append_decimal(s, n / 10);
    }
    let d: u8 = (n % 10) as u8;
    push_char(s, (d + 48) as char);
    proof {
        assert(decimal(n as nat) == if n < 10 { seq![digit_char(n as nat)] } else {
            decimal((n / 10) as nat).push(digit_char((n % 10) as nat))
        });
    }
    assert(final(s)@ =~= old(s)@ + decimal(n as nat));
}

proof fn lemma_decimal_one_line(n: nat)
    ensures
        !decimal(n).contains('\n'),
    decreases n,
{
    let d = digit_char(n % 10);
    assert(d != '\n');
    assert(!seq![d].contains('\n')) by {
        if seq![d].contains('\n') {
            assert(seq![d][0] == '\n');
        }
    }
    if n >= 10 {
        lemma_decimal_one_line(n / 10);
        lemma_concat_lacks(decimal(n / 10), seq![d], '\n');
        assert(decimal(n / 10) + seq![d] =~= decimal(n));
    } else {
        assert(seq![d] =~= decimal(n));
    }
}

proof fn lemma_concat_lacks(a: Seq<char>, b: Seq<char>, c: char)
    requires
        !a.contains(c),
        !b.contains(c),
    ensures
        !(a + b).contains(c),
{
    if (a + b).contains(c) {
        let i = choose|i: int| 0 <= i < (a + b).len() && (a + b)[i] == c;
        if i < a.len() {
            assert(a[i] == c);
        } else {
            assert(b[i - a.len()] == c);
        }
    }
}

/// An envelope's text holds no raw newline, so it never breaks the framing:
/// the newlines of the strings are escaped.
proof fn lemma_envelope_text_one_line(m: AgentMessage)
    requires
        !json_string(m.target@).contains('\n'),
        !json_string(m.msg_type@).contains('\n'),
        !json_string(m.content@).contains('\n'),
    ensures
        !envelope_text(m).contains('\n'),
{
    reveal_strlit("{\"id\":");
    reveal_strlit(",\"target\":");
    reveal_strlit(",\"msg_type\":");
    reveal_strlit(",\"content\":");
    reveal_strlit("}");
    lemma_decimal_one_line(m.id as nat);
    let parts = seq![
        "{\"id\":"@, decimal(m.id as nat), ",\"target\":"@, json_string(m.target@),
        ",\"msg_type\":"@, json_string(m.msg_type@), ",\"content\":"@, json_string(m.content@), "}"@,
    ];
    assert forall|k: int| 0 <= k < parts.len() implies !(#[trigger] parts[k]).contains('\n') by {}
    lemma_concat_upto_lacks(parts, 9, '\n');
    assert(concat_upto(parts, 9) =~= envelope_text(m)) by {
        reveal_with_fuel(concat_upto, 10);
    }
}

proof fn lemma_concat_upto_lacks(parts: Seq<Seq<char>>, k: int, c: char)
    requires
        0 <= k <= parts.len(),
        forall|j: int| 0 <= j < parts.len() ==> !(#[trigger] parts[j]).contains(c),
    ensures
        !concat_upto(parts, k).contains(c),
    decreases k,
{
    if k > 0 {
        lemma_concat_upto_lacks(parts, k - 1, c);
        lemma_concat_lacks(concat_upto(parts, k - 1), parts[k - 1], c);
    }
}

/// The concatenation of the first `k` of `parts`.
spec fn concat_upto(parts: Seq<Seq<char>>, k: int) -> Seq<char>
    decreases k,
{
    if k <= 0 {
        Seq::empty()
    } else {
        concat_upto(parts, k - 1) + parts[k - 1]
    }
}

/// Encodes an envelope as its canonical text, which holds no raw newline.
pub fn encode(m: &AgentMessage) -> (r: String)
    ensures
        r@ == envelope_text(*m),
        !r@.contains('\n'),
{
    let mut s = String::from_str("{\"id\":");
    append_decimal(&mut s, m.id);
    s.append(",\"target\":");
    let target = json_quote(m.target.as_str());
    s.append(target.as_str());
    s.append(",\"msg_type\":");
    let msg_type = json_quote(m.msg_type.as_str());
    s.append(msg_type.as_str());
    s.append(",\"content\":");
    let content = json_quote(m.content.as_str());
    s.append(content.as_str());
    s.append("}");
    assert(s@ =~= envelope_text(*m));
    proof {
        lemma_envelope_text_one_line(*m);
    }
    s
}

/// The bytes to transmit for `m`: its canonical text, then the delimiter.
pub fn encode_frame(m: &AgentMessage) -> (r: Vec<u8>)
    ensures
        r@ == frame(*m),
{
    let text = encode(m);
    let mut bytes = slice_to_vec(text.as_str().as_bytes());
    bytes.push(DELIMITER);
    bytes
}

} // verus!
