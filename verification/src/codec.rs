//! The wire encoding of outbound messages.
//!
//! Every frame sent to a client is a single-line JSON object with a `type`
//! discriminator. Two kinds exist: `NewDot` (a snapshot appeared or changed,
//! also used for the join replay) and `DotRemoved` (a snapshot vanished).
//! The encoder here is written out in full, with the escaping and the decimal
//! rendering pinned down character by character.

use vstd::prelude::*;
use vstd::string::*;

verus! {

/// The hexadecimal digit for `n` (lower case), for `n < 16`.
pub open spec fn hex_digit(n: nat) -> char {
    if n == 0 {
        '0'
    } else if n == 1 {
        '1'
    } else if n == 2 {
        '2'
    } else if n == 3 {
        '3'
    } else if n == 4 {
        '4'
    } else if n == 5 {
        '5'
    } else if n == 6 {
        '6'
    } else if n == 7 {
        '7'
    } else if n == 8 {
        '8'
    } else if n == 9 {
        '9'
    } else if n == 10 {
        'a'
    } else if n == 11 {
        'b'
    } else if n == 12 {
        'c'
    } else if n == 13 {
        'd'
    } else if n == 14 {
        'e'
    } else {
        'f'
    }
}

/// How one character is written inside a JSON string: quotes and backslashes
/// are escaped, the common control characters get their short escapes, any
/// other control character becomes `\u00xx`, and everything else stands as is.
pub open spec fn escape_char(c: char) -> Seq<char> {
    if c == '"' {
        seq!['\\', '"']
    } else if c == '\\' {
        seq!['\\', '\\']
    } else if c as u32 == 8 {
        seq!['\\', 'b']
    } else if c as u32 == 9 {
        seq!['\\', 't']
    } else if c as u32 == 10 {
        seq!['\\', 'n']
    } else if c as u32 == 12 {
        seq!['\\', 'f']
    } else if c as u32 == 13 {
        seq!['\\', 'r']
    } else if (c as u32) < 32 {
        seq!['\\', 'u', '0', '0'] + seq![
            hex_digit((c as u32 / 16) as nat),
            hex_digit((c as u32 % 16) as nat),
        ]
    } else {
        seq![c]
    }
}

/// The body of a JSON string: every character escaped, in order.
pub open spec fn json_escaped(s: Seq<char>) -> Seq<char>
    decreases s.len(),
{
    if s.len() == 0 {
        Seq::empty()
    } else {
        json_escaped(s.drop_last()) + escape_char(s.last())
    }
}

/// A complete JSON string literal: quote, escaped body, quote.
pub open spec fn json_string(s: Seq<char>) -> Seq<char> {
    seq!['"'] + json_escaped(s) + seq!['"']
}

/// The decimal rendering of `n`, most significant digit first, no sign and
/// no leading zero (except for `n == 0` itself). The first ten hexadecimal
/// digits are the decimal ones.
pub open spec fn dec_str(n: nat) -> Seq<char>
    decreases n,
{
    if n < 10 {
        seq![hex_digit(n)]
    } else {
        dec_str(n / 10).push(hex_digit(n % 10))
    }
}

fn hex_digit_str(n: u32) -> (r: &'static str)
    requires
        n < 16,
    ensures
        r@ == seq![hex_digit(n as nat)],
{
    proof {
        reveal_strlit("0");
        reveal_strlit("1");
        reveal_strlit("2");
        reveal_strlit("3");
        reveal_strlit("4");
        reveal_strlit("5");
        reveal_strlit("6");
        reveal_strlit("7");
        reveal_strlit("8");
        reveal_strlit("9");
        reveal_strlit("a");
        reveal_strlit("b");
        reveal_strlit("c");
        reveal_strlit("d");
        reveal_strlit("e");
        reveal_strlit("f");
        assert("0"@ =~= seq!['0']);
        assert("1"@ =~= seq!['1']);
        assert("2"@ =~= seq!['2']);
        assert("3"@ =~= seq!['3']);
        assert("4"@ =~= seq!['4']);
        assert("5"@ =~= seq!['5']);
        assert("6"@ =~= seq!['6']);
        assert("7"@ =~= seq!['7']);
        assert("8"@ =~= seq!['8']);
        assert("9"@ =~= seq!['9']);
        assert("a"@ =~= seq!['a']);
        assert("b"@ =~= seq!['b']);
        assert("c"@ =~= seq!['c']);
        assert("d"@ =~= seq!['d']);
        assert("e"@ =~= seq!['e']);
        assert("f"@ =~= seq!['f']);
    }
    if n == 0 {
        "0"
    } else if n == 1 {
        "1"
    } else if n == 2 {
        "2"
    } else if n == 3 {
        "3"
    } else if n == 4 {
        "4"
    } else if n == 5 {
        "5"
    } else if n == 6 {
        "6"
    } else if n == 7 {
        "7"
    } else if n == 8 {
        "8"
    } else if n == 9 {
        "9"
    } else if n == 10 {
        "a"
    } else if n == 11 {
        "b"
    } else if n == 12 {
        "c"
    } else if n == 13 {
        "d"
    } else if n == 14 {
        "e"
    } else {
        "f"
    }
}

/// Appends the decimal rendering of `n` to `out`.
pub fn append_dec(out: &mut String, n: u64)
    ensures
        final(out)@ == old(out)@ + dec_str(n as nat),
    decreases n,
{
    if n < 10 {
        out.append(hex_digit_str(n as u32));
    } else {
        append_dec(out, n / 10);
        out.append(hex_digit_str((n % 10) as u32));
        proof {
            assert(old(out)@ + dec_str((n / 10) as nat) + seq![hex_digit((n % 10) as nat)]
                =~= old(out)@ + dec_str(n as nat));
        }
    }
}

/// Appends the escaped body of `s` (no surrounding quotes) to `out`.
fn append_escaped(out: &mut String, s: &str)
    ensures
        final(out)@ == old(out)@ + json_escaped(s@),
{
    let ghost base = old(out)@;
    let n = s.unicode_len();
    let mut i: usize = 0;
    while i < n
        invariant
            n == s@.len(),
            0 <= i <= n,
            out@ == base + json_escaped(s@.take(i as int)),
        decreases n - i,
    {
        proof {
            assert(s@.take(i + 1 as int).drop_last() =~= s@.take(i as int));
            assert(s@.take(i + 1 as int).last() == s@[i as int]);
        }
        let c = s.get_char(i);
        if c == '"' {
            out.append("\\\"");
            proof {
                reveal_strlit("\\\"");
                assert("\\\""@ =~= escape_char(c));
            }
        } else if c == '\\' {
            out.append("\\\\");
            proof {
                reveal_strlit("\\\\");
                assert("\\\\"@ =~= escape_char(c));
            }
        } else {
            let code = c as u32;
            if code == 8 {
                out.append("\\b");
                proof {
                    reveal_strlit("\\b");
                    assert("\\b"@ =~= escape_char(c));
                }
            } else if code == 9 {
                out.append("\\t");
                proof {
                    reveal_strlit("\\t");
                    assert("\\t"@ =~= escape_char(c));
                }
            } else if code == 10 {
                out.append("\\n");
                proof {
                    reveal_strlit("\\n");
                    assert("\\n"@ =~= escape_char(c));
                }
            } else if code == 12 {
                out.append("\\f");
                proof {
                    reveal_strlit("\\f");
                    assert("\\f"@ =~= escape_char(c));
                }
            } else if code == 13 {
                out.append("\\r");
                proof {
                    reveal_strlit("\\r");
                    assert("\\r"@ =~= escape_char(c));
                }
            } else if code < 32 {
                out.append("\\u00");
                out.append(hex_digit_str(code / 16));
                out.append(hex_digit_str(code % 16));
                proof {
                    reveal_strlit("\\u00");
                    assert("\\u00"@ + seq![hex_digit((code / 16) as nat)] + seq![
                        hex_digit((code % 16) as nat),
                    ] =~= escape_char(c));
                }
            } else {
                let piece = s.substring_char(i, i + 1);
                proof {
                    assert(s@.subrange(i as int, i + 1 as int) =~= seq![s@[i as int]]);
                }
                out.append(piece);
                proof {
                    assert(seq![s@[i as int]] =~= escape_char(c));
                }
            }
        }
        proof {
            assert(out@ =~= base + json_escaped(s@.take(i + 1 as int)));
        }
        i += 1;
    }
    proof {
        assert(s@.take(n as int) =~= s@);
    }
}

/// Appends the JSON string literal for `s` (with quotes) to `out`.
pub fn append_json_string(out: &mut String, s: &str)
    ensures
        final(out)@ == old(out)@ + json_string(s@),
{
    proof {
        reveal_strlit("\"");
        assert("\""@ =~= seq!['"']);
    }
    out.append("\"");
    append_escaped(out, s);
    out.append("\"");
    proof {
        assert(old(out)@ + seq!['"'] + json_escaped(s@) + seq!['"'] =~= old(out)@
            + json_string(s@));
    }
}

/// One outbound text frame, exactly as it is sent to a client.
pub struct TextMessage(pub String);

impl View for TextMessage {
    type V = Seq<char>;

    open spec fn view(&self) -> Seq<char> {
        self.0@
    }
}

/// An outbound message before encoding.
pub enum WireMsg {
    NewDot { name: String, content: String, creation_time_ms: u64 },
    DotRemoved { name: String, creation_time_ms: u64 },
}

/// The mathematical value of a `WireMsg`.
pub enum MsgV {
    NewDot { name: Seq<char>, content: Seq<char>, creation_time_ms: u64 },
    DotRemoved { name: Seq<char>, creation_time_ms: u64 },
}

impl View for WireMsg {
    type V = MsgV;

    open spec fn view(&self) -> MsgV {
        match self {
            WireMsg::NewDot { name, content, creation_time_ms } => MsgV::NewDot {
                name: name@,
                content: content@,
                creation_time_ms: *creation_time_ms,
            },
            WireMsg::DotRemoved { name, creation_time_ms } => MsgV::DotRemoved {
                name: name@,
                creation_time_ms: *creation_time_ms,
            },
        }
    }
}

impl MsgV {
    /// The relative path the message concerns.
    pub open spec fn name(self) -> Seq<char> {
        match self {
            MsgV::NewDot { name, .. } => name,
            MsgV::DotRemoved { name, .. } => name,
        }
    }

    /// The modification time the message carries.
    pub open spec fn time(self) -> u64 {
        match self {
            MsgV::NewDot { creation_time_ms, .. } => creation_time_ms,
            MsgV::DotRemoved { creation_time_ms, .. } => creation_time_ms,
        }
    }

    pub open spec fn is_new_dot(self) -> bool {
        self is NewDot
    }

    pub open spec fn is_dot_removed(self) -> bool {
        self is DotRemoved
    }

    /// The content a `NewDot` carries; empty for `DotRemoved`.
    pub open spec fn content_or_empty(self) -> Seq<char> {
        match self {
            MsgV::NewDot { content, .. } => content,
            MsgV::DotRemoved { .. } => Seq::empty(),
        }
    }
}

/// The frame text of a message: one JSON object, `type` first.
pub open spec fn msg_text(m: MsgV) -> Seq<char> {
    match m {
        MsgV::NewDot { name, content, creation_time_ms } => "{\"type\":\"NewDot\",\"name\":"@
            + json_string(name) + ",\"content\":"@ + json_string(content) + ",\"creation_time\":"@
            + dec_str(creation_time_ms as nat) + "}"@,
        MsgV::DotRemoved { name, creation_time_ms } => "{\"type\":\"DotRemoved\",\"name\":"@
            + json_string(name) + ",\"creation_time\":"@ + dec_str(creation_time_ms as nat)
            + "}"@,
    }
}

/// Builds the text frame for `m`.
pub fn encode_message(m: &WireMsg) -> (r: TextMessage)
    ensures
        r@ == msg_text(m@),
{
    match m {
        WireMsg::NewDot { name, content, creation_time_ms } => {
            let mut out = String::new();
            out.append("{\"type\":\"NewDot\",\"name\":");
            append_json_string(&mut out, name.as_str());
            out.append(",\"content\":");
            append_json_string(&mut out, content.as_str());
            out.append(",\"creation_time\":");
            append_dec(&mut out, *creation_time_ms);
            out.append("}");
            proof {
                assert(out@ =~= msg_text(m@));
            }
            TextMessage(out)
        },
        WireMsg::DotRemoved { name, creation_time_ms } => {
            let mut out = String::new();
            out.append("{\"type\":\"DotRemoved\",\"name\":");
            append_json_string(&mut out, name.as_str());
            out.append(",\"creation_time\":");
            append_dec(&mut out, *creation_time_ms);
            out.append("}");
            proof {
                assert(out@ =~= msg_text(m@));
            }
            TextMessage(out)
        },
    }
}

} // verus!
