//! Signaling handshake messages and their wire codec: one message per line,
//! a tagged object with an escaped string payload, so that a payload can
//! never break the line framing.

use vstd::prelude::*;
use vstd::string::StrSliceExecFns;
use vstd::string::StringExecFns;

verus! {

/// One control message of the signaling handshake, exchanged with exactly one
/// remote peer while a direct transport is being negotiated.
#[derive(Clone, Debug)]
pub enum SignalingMessage {
    Offer(String),
    Answer(String),
    Candidate(String),
}

/// The control session used to exchange handshake messages; the listening
/// and dialing ends live outside the core, and both speak this codec.
pub struct SignalingService;

impl SignalingService {
    pub fn new() -> Self {
        Self
    }
}

/// The tag a message carries on the wire.
pub open spec fn spec_tag(m: SignalingMessage) -> Seq<char> {
    match m {
        SignalingMessage::Offer(_) => "Offer"@,
        SignalingMessage::Answer(_) => "Answer"@,
        SignalingMessage::Candidate(_) => "Candidate"@,
    }
}

/// The payload a message carries.
pub open spec fn spec_payload(m: SignalingMessage) -> Seq<char> {
    match m {
        SignalingMessage::Offer(s) => s@,
        SignalingMessage::Answer(s) => s@,
        SignalingMessage::Candidate(s) => s@,
    }
}

/// Characters that may not stand bare inside the quoted payload.
pub open spec fn spec_esc_needed(c: char) -> bool {
    c == '"' || c == '\\' || c == '\n' || c == '\r' || c == '\t'
}

/// The character standing after the backslash for an escaped character.
pub open spec fn spec_esc_code(c: char) -> char {
    if c == '"' {
        '"'
    } else if c == '\\' {
        '\\'
    } else if c == '\n' {
        'n'
    } else if c == '\r' {
        'r'
    } else {
        't'
    }
}

/// A character allowed after a backslash.
pub open spec fn spec_is_code(c: char) -> bool {
    c == '"' || c == '\\' || c == 'n' || c == 'r' || c == 't'
}

/// The character an escape code stands for.
pub open spec fn spec_unesc_code(c: char) -> char {
    if c == '"' {
        '"'
    } else if c == '\\' {
        '\\'
    } else if c == 'n' {
        '\n'
    } else if c == 'r' {
        '\r'
    } else {
        '\t'
    }
}

/// The payload as it stands inside the quotes on the wire.
pub open spec fn spec_escape(s: Seq<char>) -> Seq<char>
    decreases s.len(),
{
    if s.len() == 0 {
        Seq::empty()
    } else if spec_esc_needed(s[0]) {
        seq!['\\', spec_esc_code(s[0])] + spec_escape(s.drop_first())
    } else {
        seq![s[0]] + spec_escape(s.drop_first())
    }
}

/// Escaping distributes over concatenation.
pub proof fn lemma_escape_add(a: Seq<char>, b: Seq<char>)
    ensures
        spec_escape(a + b) == spec_escape(a) + spec_escape(b),
    decreases a.len(),
{
    if a.len() == 0 {
        assert(a + b =~= b);
        assert(spec_escape(a) + spec_escape(b) =~= spec_escape(b));
    } else {
        lemma_escape_add(a.drop_first(), b);
        assert((a + b).drop_first() =~= a.drop_first() + b);
        assert((a + b)[0] == a[0]);
        if spec_esc_needed(a[0]) {
            assert(spec_escape(a + b) =~= spec_escape(a) + spec_escape(b));
        } else {
            assert(spec_escape(a + b) =~= spec_escape(a) + spec_escape(b));
        }
    }
}

/// Reads a quoted payload from the front of `s`, up to and including the
/// closing quote: the payload read and how many characters were consumed.
/// An unterminated or badly escaped payload reads as nothing.
pub open spec fn spec_parse_string(s: Seq<char>) -> Option<(Seq<char>, int)>
    decreases s.len(),
{
    if s.len() == 0 {
        Option::None
    } else if s[0] == '"' {
        Option::Some((Seq::empty(), 1int))
    } else if s[0] == '\\' {
        if s.len() >= 2 && spec_is_code(s[1]) {
            match spec_parse_string(s.skip(2)) {
                Option::None => Option::None,
                Option::Some((p, n)) => Option::Some((seq![spec_unesc_code(s[1])] + p, n + 2)),
            }
        } else {
            Option::None
        }
    } else {
        match spec_parse_string(s.drop_first()) {
            Option::None => Option::None,
            Option::Some((p, n)) => Option::Some((seq![s[0]] + p, n + 1)),
        }
    }
}

/// What stands before the tag on every line.
pub open spec fn spec_pre() -> Seq<char> {
    "{\"type\":\""@
}

/// What stands between the tag and the payload.
pub open spec fn spec_mid() -> Seq<char> {
    "\",\"payload\":\""@
}

/// What closes every line.
pub open spec fn spec_end() -> Seq<char> {
    "\"}"@
}

/// Everything on the line before the payload, for a given tag.
pub open spec fn spec_head(tag: Seq<char>) -> Seq<char> {
    spec_pre() + tag + spec_mid()
}

/// The one line a message is encoded as.
pub open spec fn spec_encode(m: SignalingMessage) -> Seq<char> {
    spec_head(spec_tag(m)) + spec_escape(spec_payload(m)) + spec_end()
}

/// Reads a line as a message with the given tag: the head must match
/// exactly, the payload must parse, and the object must close at the line's
/// end.
pub open spec fn spec_try_tag(line: Seq<char>, tag: Seq<char>) -> Option<Seq<char>> {
    let head = spec_head(tag);
    if line.len() >= head.len() && line.subrange(0, head.len() as int) == head {
        match spec_parse_string(line.skip(head.len() as int)) {
            Option::None => Option::None,
            Option::Some((p, n)) => {
                if line.len() == head.len() + n + 1 && line[line.len() - 1] == '}' {
                    Option::Some(p)
                } else {
                    Option::None
                }
            },
        }
    } else {
        Option::None
    }
}

/// What a line decodes to: the tag and the payload, or nothing for any line
/// that is not a well-formed message — such a line is skipped, not a fault.
pub open spec fn spec_decode(line: Seq<char>) -> Option<(Seq<char>, Seq<char>)> {
    if spec_try_tag(line, "Offer"@) is Some {
        Option::Some(("Offer"@, spec_try_tag(line, "Offer"@)->0))
    } else if spec_try_tag(line, "Answer"@) is Some {
        Option::Some(("Answer"@, spec_try_tag(line, "Answer"@)->0))
    } else if spec_try_tag(line, "Candidate"@) is Some {
        Option::Some(("Candidate"@, spec_try_tag(line, "Candidate"@)->0))
    } else {
        Option::None
    }
}

/// Reading a quoted payload that was written by escaping consumes exactly
/// the escaped text and its closing quote, and yields the payload back.
proof fn lemma_parse_escape(p: Seq<char>, suffix: Seq<char>)
    ensures
        spec_parse_string(spec_escape(p) + seq!['"'] + suffix) == Option::Some(
            (p, spec_escape(p).len() as int + 1),
        ),
    decreases p.len(),
{
    let s = spec_escape(p) + seq!['"'] + suffix;
    if p.len() == 0 {
        assert(spec_escape(p) == Seq::<char>::empty());
        assert(s[0] == '"');
        assert(p =~= Seq::<char>::empty());
    } else {
        let c = p[0];
        let rest = p.drop_first();
        lemma_parse_escape(rest, suffix);
        let s_rest = spec_escape(rest) + seq!['"'] + suffix;
        if spec_esc_needed(c) {
            assert(spec_escape(p) == seq!['\\', spec_esc_code(c)] + spec_escape(rest));
            assert(s[0] == '\\');
            assert(s[1] == spec_esc_code(c));
            assert(spec_is_code(spec_esc_code(c)));
            assert(s.skip(2) =~= s_rest);
            assert(spec_unesc_code(spec_esc_code(c)) == c);
            assert(seq![c] + rest =~= p);
            assert(spec_escape(p).len() == 2 + spec_escape(rest).len());
            assert(spec_parse_string(s) == Option::Some((p, spec_escape(p).len() as int + 1)));
        } else {
            assert(spec_escape(p) == seq![c] + spec_escape(rest));
            assert(s[0] == c);
            assert(c != '"' && c != '\\');
            assert(s.drop_first() =~= s_rest);
            assert(seq![c] + rest =~= p);
            assert(spec_escape(p).len() == 1 + spec_escape(rest).len());
            assert(spec_parse_string(s) == Option::Some((p, spec_escape(p).len() as int + 1)));
        }
    }
}

/// A line carries the tag it was encoded with and no other: the heads of two
/// different tags differ right after the fixed prefix.
proof fn lemma_other_tag_fails(m: SignalingMessage, other: Seq<char>)
    requires
        other.len() > 0,
        spec_tag(m).len() > 0,
        other[0] != spec_tag(m)[0],
    ensures
        spec_try_tag(spec_encode(m), other) is None,
{
    reveal_strlit("{\"type\":\"");
    let line = spec_encode(m);
    let head_other = spec_head(other);
    if line.len() >= head_other.len() && line.subrange(0, head_other.len() as int)
        == head_other {
        assert(line.subrange(0, head_other.len() as int)[9] == line[9]);
        assert(head_other[9] == other[0]);
        assert(line[9] == spec_head(spec_tag(m))[9]);
        assert(spec_head(spec_tag(m))[9] == spec_tag(m)[0]);
        assert(false);
    }
}

/// Round-trip: the line a message encodes to decodes back to that
/// message's tag and payload, for every payload and all three kinds.
pub proof fn lemma_round_trip(m: SignalingMessage)
    ensures
        spec_decode(spec_encode(m)) == Option::Some((spec_tag(m), spec_payload(m))),
{
    reveal_strlit("{\"type\":\"");
    reveal_strlit("\",\"payload\":\"");
    reveal_strlit("\"}");
    reveal_strlit("Offer");
    reveal_strlit("Answer");
    reveal_strlit("Candidate");
    let tag = spec_tag(m);
    let p = spec_payload(m);
    let line = spec_encode(m);
    let head = spec_head(tag);
    assert(line.subrange(0, head.len() as int) =~= head);
    assert(line.skip(head.len() as int) =~= spec_escape(p) + seq!['"'] + seq!['}']);
    lemma_parse_escape(p, seq!['}']);
    assert(line.len() == head.len() + (spec_escape(p).len() + 1) + 1);
    assert(line[line.len() - 1] == '}');
    assert(spec_try_tag(line, tag) == Option::Some(p));
    match m {
        SignalingMessage::Offer(_) => {
        },
        SignalingMessage::Answer(_) => {
            lemma_other_tag_fails(m, "Offer"@);
        },
        SignalingMessage::Candidate(_) => {
            lemma_other_tag_fails(m, "Offer"@);
            lemma_other_tag_fails(m, "Answer"@);
        },
    }
}

/// Escaping leaves no raw line break in the payload text.
proof fn lemma_escape_no_newline(s: Seq<char>)
    ensures
        forall|i: int| 0 <= i < spec_escape(s).len() ==> spec_escape(s)[i] != '\n',
    decreases s.len(),
{
    if s.len() == 0 {
    } else {
        lemma_escape_no_newline(s.drop_first());
        let e = spec_escape(s);
        let rest = spec_escape(s.drop_first());
        if spec_esc_needed(s[0]) {
            assert(e == seq!['\\', spec_esc_code(s[0])] + rest);
            assert(spec_esc_code(s[0]) != '\n');
            assert forall|i: int| 0 <= i < e.len() implies e[i] != '\n' by {
                if i >= 2 {
                    assert(e[i] == rest[i - 2]);
                }
            }
        } else {
            assert(e == seq![s[0]] + rest);
            assert(s[0] != '\n');
            assert forall|i: int| 0 <= i < e.len() implies e[i] != '\n' by {
                if i >= 1 {
                    assert(e[i] == rest[i - 1]);
                }
            }
        }
    }
}

/// One message is always exactly one line: no payload can smuggle a raw
/// line break into its encoding and break the newline-delimited framing.
pub proof fn lemma_encode_single_line(m: SignalingMessage)
    ensures
        forall|i: int| 0 <= i < spec_encode(m).len() ==> spec_encode(m)[i] != '\n',
{
    reveal_strlit("{\"type\":\"");
    reveal_strlit("\",\"payload\":\"");
    reveal_strlit("\"}");
    reveal_strlit("Offer");
    reveal_strlit("Answer");
    reveal_strlit("Candidate");
    let line = spec_encode(m);
    let head = spec_head(spec_tag(m));
    let esc = spec_escape(spec_payload(m));
    lemma_escape_no_newline(spec_payload(m));
    assert forall|i: int| 0 <= i < line.len() implies line[i] != '\n' by {
        if i < head.len() {
            assert(line[i] == head[i]);
            if i < 9 {
                assert(head[i] == spec_pre()[i]);
            } else if i < 9 + spec_tag(m).len() {
                assert(head[i] == spec_tag(m)[i - 9]);
            } else {
                assert(head[i] == spec_mid()[i - 9 - spec_tag(m).len()]);
            }
        } else if i < head.len() + esc.len() {
            assert(line[i] == esc[i - head.len()]);
        } else {
            assert(line[i] == spec_end()[i - head.len() - esc.len()]);
        }
    }
}

/// Relies on String::push: appends exactly the given character.
#[verifier::external_body]
fn push_char(s: &mut String, c: char)
    ensures
        final(s)@ == old(s)@ + seq![c],
{
    s.push(c);
}

/// Appends the escaped payload to the line being built.
fn escape_into(line: &mut String, payload: &str)
    ensures
        final(line)@ == old(line)@ + spec_escape(payload@),
{
    let ghost before = line@;
    let n = payload.unicode_len();
    let mut i: usize = 0;
    proof {
        assert(payload@.subrange(0, 0) =~= Seq::<char>::empty());
        assert(before + spec_escape(payload@.subrange(0, 0)) =~= before);
    }
    while i < n
        invariant
            i <= n == payload@.len(),
            line@ == before + spec_escape(payload@.subrange(0, i as int)),
        decreases n - i,
    {
        let c = payload.get_char(i);
        if c == '"' || c == '\\' || c == '\n' || c == '\r' || c == '\t' {
            push_char(line, '\\');
            let code = if c == '"' {
                '"'
            } else if c == '\\' {
                '\\'
            } else if c == '\n' {
                'n'
            } else if c == '\r' {
                'r'
            } else {
                't'
            };
            push_char(line, code);
            proof {
                assert(seq![c].drop_first() =~= Seq::<char>::empty());
                assert(spec_escape(Seq::<char>::empty()) == Seq::<char>::empty());
                assert(spec_escape(seq![c]) =~= seq!['\\', spec_esc_code(c)]);
            }
        } else {
            push_char(line, c);
            proof {
                assert(seq![c].drop_first() =~= Seq::<char>::empty());
                assert(spec_escape(Seq::<char>::empty()) == Seq::<char>::empty());
                assert(spec_escape(seq![c]) =~= seq![c]);
            }
        }
        proof {
            lemma_escape_add(payload@.subrange(0, i as int), seq![c]);
            assert(payload@.subrange(0, i as int) + seq![c] =~= payload@.subrange(0, i + 1));
            assert(line@ =~= before + spec_escape(payload@.subrange(0, i + 1)));
        }
        i += 1;
    }
    proof {
        assert(payload@.subrange(0, payload@.len() as int) =~= payload@);
    }
}

/// Encodes a message as its one wire line. Any payload is safe: escaping
/// keeps quotes, backslashes and line breaks out of the raw line.
pub fn encode_message(m: &SignalingMessage) -> (line: String)
    ensures
        line@ == spec_encode(*m),
{
    let mut line = String::new();
    line.append("{\"type\":\"");
    match m {
        SignalingMessage::Offer(_) => line.append("Offer"),
        SignalingMessage::Answer(_) => line.append("Answer"),
        SignalingMessage::Candidate(_) => line.append("Candidate"),
    }
    line.append("\",\"payload\":\"");
    let payload = match m {
        SignalingMessage::Offer(s) => s,
        SignalingMessage::Answer(s) => s,
        SignalingMessage::Candidate(s) => s,
    };
    escape_into(&mut line, payload.as_str());
    line.append("\"}");
    proof {
        assert(line@ =~= spec_encode(*m));
    }
    line
}

/// Whether `pat` stands in `s` at position `i`, character for character.
fn match_at(s: &str, i: usize, pat: &str) -> (b: bool)
    ensures
        b == (i + pat@.len() <= s@.len() && s@.subrange(i as int, i + pat@.len()) == pat@),
{
    let n = s.unicode_len();
    let m = pat.unicode_len();
    if i > n || m > n - i {
        return false;
    }
    let mut j: usize = 0;
    while j < m
        invariant
            i + m <= n,
            n == s@.len(),
            m == pat@.len(),
            j <= m,
            forall|k: int| 0 <= k < j ==> s@[i + k] == pat@[k],
        decreases m - j,
    {
        if s.get_char(i + j) != pat.get_char(j) {
            proof {
                assert(s@.subrange(i as int, i + pat@.len())[j as int] == s@[i + j]);
            }
            return false;
        }
        j += 1;
    }
    proof {
        assert(s@.subrange(i as int, i + pat@.len()) =~= pat@);
    }
    true
}

/// Reads the quoted payload beginning at `start`, returning it with the
/// position just past its closing quote, exactly as `spec_parse_string`
/// reads it.
fn parse_payload(line: &str, start: usize) -> (r: Option<(String, usize)>)
    requires
        start <= line@.len(),
    ensures
        (r matches Some(pe) ==> start < pe.1 <= line@.len() && spec_parse_string(
            line@.skip(start as int),
        ) == Option::Some((pe.0@, pe.1 - start as int))),
        r is None ==> spec_parse_string(line@.skip(start as int)) is None,
{
    let n = line.unicode_len();
    let mut pos: usize = start;
    let mut built = String::new();
    proof {
        assert(built@ =~= Seq::<char>::empty());
    }
    loop
        invariant
            start <= pos <= n,
            n == line@.len(),
            spec_parse_string(line@.skip(start as int)) == (match spec_parse_string(
                line@.skip(pos as int),
            ) {
                Option::None => Option::<(Seq<char>, int)>::None,
                Option::Some((p, k)) => Option::Some((built@ + p, pos - start + k)),
            }),
        decreases n - pos,
    {
        if pos == n {
            proof {
                assert(line@.skip(pos as int).len() == 0);
            }
            return None;
        }
        let c = line.get_char(pos);
        proof {
            assert(line@.skip(pos as int)[0] == line@[pos as int]);
        }
        if c == '"' {
            proof {
                assert(spec_parse_string(line@.skip(pos as int)) == Option::Some(
                    (Seq::<char>::empty(), 1int),
                ));
                assert(built@ + Seq::<char>::empty() =~= built@);
            }
            return Some((built, pos + 1));
        }
        if c == '\\' {
            if pos + 1 == n {
                proof {
                    assert(line@.skip(pos as int).len() == 1);
                }
                return None;
            }
            let c2 = line.get_char(pos + 1);
            proof {
                assert(line@.skip(pos as int)[1] == line@[pos + 1]);
            }
            let code_ok = c2 == '"' || c2 == '\\' || c2 == 'n' || c2 == 'r' || c2 == 't';
            if !code_ok {
                return None;
            }
            let u = if c2 == '"' {
                '"'
            } else if c2 == '\\' {
                '\\'
            } else if c2 == 'n' {
                '\n'
            } else if c2 == 'r' {
                '\r'
            } else {
                '\t'
            };
            let ghost built_before = built@;
            push_char(&mut built, u);
            proof {
                assert(line@.skip(pos as int).skip(2) =~= line@.skip(pos + 2));
                if let Option::Some((p, k)) = spec_parse_string(line@.skip(pos + 2)) {
                    assert(spec_parse_string(line@.skip(pos as int)) == Option::Some(
                        (seq![u] + p, k + 2),
                    ));
                    assert(built_before + (seq![u] + p) =~= built@ + p);
                }
            }
            pos += 2;
        } else {
            let ghost built_before = built@;
            push_char(&mut built, c);
            proof {
                assert(line@.skip(pos as int).drop_first() =~= line@.skip(pos + 1));
                if let Option::Some((p, k)) = spec_parse_string(line@.skip(pos + 1)) {
                    assert(spec_parse_string(line@.skip(pos as int)) == Option::Some(
                        (seq![c] + p, k + 1),
                    ));
                    assert(built_before + (seq![c] + p) =~= built@ + p);
                }
            }
            pos += 1;
        }
    }
}

/// Reads a line as a message with the given tag, exactly as `spec_try_tag`
/// reads it.
fn try_decode(line: &str, tag: &str) -> (r: Option<String>)
    ensures
        (r matches Some(p) ==> spec_try_tag(line@, tag@) == Option::Some(p@)),
        r is None ==> spec_try_tag(line@, tag@) is None,
{
    proof {
        reveal_strlit("{\"type\":\"");
        reveal_strlit("\",\"payload\":\"");
    }
    let ghost head = spec_head(tag@);
    let n = line.unicode_len();
    let pre_ok = match_at(line, 0, "{\"type\":\"");
    if !pre_ok {
        proof {
            if line@.len() >= head.len() && line@.subrange(0, head.len() as int) == head {
                assert(line@.subrange(0, 9) =~= head.subrange(0, 9));
                assert(head.subrange(0, 9) =~= spec_pre());
            }
        }
        return None;
    }
    let tlen = tag.unicode_len();
    let tag_ok = match_at(line, 9, tag);
    if !tag_ok {
        proof {
            if line@.len() >= head.len() && line@.subrange(0, head.len() as int) == head {
                assert(line@.subrange(9, 9 + tag@.len() as int) =~= head.subrange(9, 9 + tag@.len() as int));
                assert(head.subrange(9, 9 + tag@.len() as int) =~= tag@);
            }
        }
        return None;
    }
    proof {
        assert(9 + tag@.len() <= line@.len());
    }
    let mid_ok = match_at(line, 9 + tlen, "\",\"payload\":\"");
    if !mid_ok {
        proof {
            if line@.len() >= head.len() && line@.subrange(0, head.len() as int) == head {
                assert(line@.subrange(9 + tag@.len() as int, head.len() as int) =~= head.subrange(
                    9 + tag@.len() as int,
                    head.len() as int,
                ));
                assert(head.subrange(9 + tag@.len() as int, head.len() as int) =~= spec_mid());
            }
        }
        return None;
    }
    proof {
        assert(9 + tag@.len() as int + 13 <= line@.len());
    }
    let head_len = 9 + tlen + 13;
    proof {
        assert(head.len() == head_len);
        assert forall|k: int| 0 <= k < head.len() implies line@.subrange(
            0,
            head.len() as int,
        )[k] == head[k] by {
            if k < 9 {
                assert(line@.subrange(0, 9)[k] == line@[k]);
                assert(head[k] == spec_pre()[k]);
            } else if k < 9 + tag@.len() as int {
                assert(line@.subrange(9, 9 + tag@.len() as int)[k - 9] == line@[k]);
                assert(head[k] == tag@[k - 9]);
            } else {
                assert(line@.subrange(9 + tag@.len() as int, head.len() as int)[k - 9 - tag@.len()]
                    == line@[k]);
                assert(head[k] == spec_mid()[k - 9 - tag@.len()]);
            }
        }
        assert(line@.subrange(0, head.len() as int) =~= head);
    }
    match parse_payload(line, head_len) {
        None => None,
        Some((p, end)) => {
            if end != n - 1 {
                proof {
                    assert(line@.len() != head.len() + (end - head_len as int) + 1);
                }
                None
            } else {
                let c = line.get_char(end);
                if c == '}' {
                    proof {
                        assert(line@[line@.len() - 1] == '}');
                        assert(line@.len() == head.len() + (end - head_len as int) + 1);
                    }
                    Some(p)
                } else {
                    proof {
                        assert(line@[line@.len() - 1] != '}');
                    }
                    None
                }
            }
        },
    }
}

/// Decodes one wire line back to a message. A malformed line, an unknown
/// tag, or trailing noise after the object decodes to nothing.
pub fn decode_message(line: &str) -> (r: Option<SignalingMessage>)
    ensures
        (r matches Some(m) ==> spec_decode(line@) == Option::Some(
            (spec_tag(m), spec_payload(m)),
        )),
        r is None ==> spec_decode(line@) is None,
{
    if let Some(p) = try_decode(line, "Offer") {
        return Some(SignalingMessage::Offer(p));
    }
    if let Some(p) = try_decode(line, "Answer") {
        return Some(SignalingMessage::Answer(p));
    }
    if let Some(p) = try_decode(line, "Candidate") {
        return Some(SignalingMessage::Candidate(p));
    }
    None
}

} // verus!
