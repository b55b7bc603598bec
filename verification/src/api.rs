//! Message-building blocks for the remote-API client: conversation
//! messages, tool calls, and JSON string escaping. The network transport
//! consumes these; it lives outside this crate.

use vstd::prelude::*;

verus! {

/// A single message in a conversation. Simple text messages carry their
/// text in `content`; structured messages carry content blocks instead.
pub struct Message {
    /// Either "user" or "assistant".
    pub role: &'static str,
    pub content: Vec<u8>,
    /// Structured content blocks; when non-empty these are serialized
    /// instead of `content`.
    pub content_blocks: Vec<ContentBlock>,
}

/// A content block in a message: text, a tool invocation, or a tool
/// result.
pub enum ContentBlock {
    Text(Vec<u8>),
    ToolUse { id: Vec<u8>, name: Vec<u8>, input_json: Vec<u8> },
    ToolResult { tool_use_id: Vec<u8>, content: Vec<u8>, is_error: bool },
}

/// A tool call extracted from a model response.
pub struct ToolCall {
    pub id: Vec<u8>,
    pub name: Vec<u8>,
    pub input_json: Vec<u8>,
}

/// The result of a request: text, tool calls, and why the model stopped.
pub struct ClaudeResponse {
    pub text: Vec<u8>,
    pub tool_calls: Vec<ToolCall>,
    pub stop_reason: Vec<u8>,
}

/// API client errors.
pub enum ApiError {
    ConnectionFailed,
    ConnectionTimeout,
    TlsHandshakeFailed,
    SendFailed,
    EmptyResponse,
    DnsError(Vec<u8>),
    /// An HTTP error: status code, readable message, optional retry-after
    /// seconds.
    HttpStatus(u16, Vec<u8>, Option<u64>),
    ApiError(Vec<u8>),
}

impl Message {
    /// A simple text message.
    pub fn text(role: &'static str, content: Vec<u8>) -> (r: Self)
        ensures
            r.role == role,
            r.content@ == content@,
            r.content_blocks@.len() == 0,
    {
        Message { role, content, content_blocks: Vec::new() }
    }

    /// A tool-result message, delivered with the user role.
    pub fn tool_result(tool_use_id: Vec<u8>, result: Vec<u8>, is_error: bool) -> (r: Self)
        ensures
            r.content@.len() == 0,
            r.content_blocks@.len() == 1,
            r.content_blocks@[0] matches ContentBlock::ToolResult {
                tool_use_id: t,
                content: c,
                is_error: e,
            } && t@ == tool_use_id@ && c@ == result@ && e == is_error,
    {
        let mut blocks: Vec<ContentBlock> = Vec::new();
        blocks.push(ContentBlock::ToolResult { tool_use_id, content: result, is_error });
        Message { role: "user", content: Vec::new(), content_blocks: blocks }
    }

    /// An assistant message carrying earlier text and tool-use blocks, for
    /// the conversation history.
    pub fn assistant_tool_use(text: Vec<u8>, tool_calls: Vec<ToolCall>) -> (r: Self)
        ensures
            r.content@.len() == 0,
            text@.len() > 0 ==> r.content_blocks@.len() == 1 + tool_calls@.len(),
            text@.len() == 0 ==> r.content_blocks@.len() == tool_calls@.len(),
    {
        let mut blocks: Vec<ContentBlock> = Vec::new();
        let nonempty = text.len() > 0;
        if nonempty {
            blocks.push(ContentBlock::Text(text));
        }
        let n = tool_calls.len();
        let mut tool_calls = tool_calls;
        let mut i: usize = 0;
        while i < n
            invariant
                i <= n,
                tool_calls@.len() == n - i,
                blocks@.len() == i + (if nonempty {
                    1int
                } else {
                    0int
                }),
            decreases n - i,
        {
            let tc = tool_calls.remove(0);
            blocks.push(ContentBlock::ToolUse { id: tc.id, name: tc.name, input_json: tc.input_json });
            i += 1;
        }
        Message { role: "assistant", content: Vec::new(), content_blocks: blocks }
    }
}

/// The escaped form of one byte in a JSON string literal.
pub open spec fn esc_byte(b: u8) -> Seq<u8> {
    if b == 34 {
        seq![92u8, 34u8]
    } else if b == 92 {
        seq![92u8, 92u8]
    } else if b == 10 {
        seq![92u8, 110u8]
    } else if b == 13 {
        seq![92u8, 114u8]
    } else if b == 9 {
        seq![92u8, 116u8]
    } else if b == 8 {
        seq![92u8, 98u8]
    } else if b == 12 {
        seq![92u8, 102u8]
    } else if b < 32 {
        seq![92u8, 117u8, 48u8, 48u8, spec_hex_digit(b / 16), spec_hex_digit(b % 16)]
    } else {
        seq![b]
    }
}

/// The escaped form of a whole string.
pub open spec fn spec_escape(s: Seq<u8>) -> Seq<u8>
    decreases s.len(),
{
    if s.len() == 0 {
        Seq::empty()
    } else {
        spec_escape(s.drop_last()) + esc_byte(s.last())
    }
}

pub open spec fn spec_hex_digit(n: u8) -> u8 {
    if n <= 9 {
        (48 + n) as u8
    } else {
        (97 + n - 10) as u8
    }
}

/// The lowercase hexadecimal digit for `n`.
pub fn hex_digit(n: u8) -> (r: u8)
    requires
        n < 16,
    ensures
        r == spec_hex_digit(n),
{
    if n <= 9 {
        48 + n
    } else {
        97 + n - 10
    }
}

/// Escape a string for inclusion in a JSON string literal: quotes and
/// backslashes get a backslash, the common control characters get their
/// short escapes, and other control bytes become `\u00XX`.
pub fn escape_json(s: &[u8]) -> (r: Vec<u8>)
    ensures
        r@ == spec_escape(s@),
{
    let n = s.len();
    let mut out: Vec<u8> = Vec::new();
    let mut i: usize = 0;
    while i < n
        invariant
            i <= n,
            n == s@.len(),
            out@ == spec_escape(s@.subrange(0, i as int)),
        decreases n - i,
    {
        let b = s[i];
        if b == 34 {
            out.push(92);
            out.push(34);
        } else if b == 92 {
            out.push(92);
            out.push(92);
        } else if b == 10 {
            out.push(92);
            out.push(110);
        } else if b == 13 {
            out.push(92);
            out.push(114);
        } else if b == 9 {
            out.push(92);
            out.push(116);
        } else if b == 8 {
            out.push(92);
            out.push(98);
        } else if b == 12 {
            out.push(92);
            out.push(102);
        } else if b < 32 {
            out.push(92);
            out.push(117);
            out.push(48);
            out.push(48);
            out.push(hex_digit(b / 16));
            out.push(hex_digit(b % 16));
        } else {
            out.push(b);
        }
        proof {
            assert(s@.subrange(0, i + 1).drop_last() =~= s@.subrange(0, i as int));
            assert(s@.subrange(0, i + 1).last() == s@[i as int]);
            assert(out@ =~= spec_escape(s@.subrange(0, i as int)) + esc_byte(s@[i as int]));
        }
        i += 1;
    }
    proof {
        assert(s@.subrange(0, n as int) =~= s@);
    }
    out
}

} // verus!
