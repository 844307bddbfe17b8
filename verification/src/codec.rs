//! The stack navigation comment: its machine-readable payload (base64 of a
//! canonical JSON rendering of the stack), the markdown body around it, and
//! the extraction of the payload back out of a body.

use crate::strutil::spec_u64_string;
use crate::strutil::u64_to_string;
use vstd::prelude::*;
use vstd::string::StrSliceExecFns;
use vstd::string::StringSliceAdditionalSpecFns;
use vstd::string::StringExecFns;
use vstd::utf8::encode_utf8;
use vstd::utf8::is_ascii_chars;

verus! {

/// One entry of the stack navigation payload.
#[verifier::ext_equal]
#[derive(Debug, Clone, PartialEq, Eq)]
pub struct StackItem {
    /// Bookmark name.
    pub bookmark_name: String,
    /// Web URL of the pull request.
    pub pr_url: String,
    /// Pull request number.
    pub pr_number: u64,
}

/// The machine-readable payload embedded in every stack navigation comment.
#[verifier::ext_equal]
#[derive(Debug, Clone, PartialEq, Eq)]
pub struct StackCommentData {
    /// Payload format version.
    pub version: u8,
    /// The stack, in plan order: root first.
    pub stack: Vec<StackItem>,
}

/// The base64 rendering (standard alphabet, with padding) of a byte sequence.
pub uninterp spec fn b64_of(bytes: Seq<u8>) -> Seq<char>;

/// A character of the standard base64 alphabet, including padding.
pub open spec fn is_b64_char(c: char) -> bool {
    ||| ('A' <= c && c <= 'Z')
    ||| ('a' <= c && c <= 'z')
    ||| ('0' <= c && c <= '9')
    ||| c == '+'
    ||| c == '/'
    ||| c == '='
}

/// Every character of `s` is from the base64 alphabet.
pub open spec fn is_b64_seq(s: Seq<char>) -> bool {
    forall|j: int| 0 <= j < s.len() ==> is_b64_char(#[trigger] s[j])
}

/// Relies on the base64 crate's `Engine::encode` with the standard padded
/// engine: the result is a function of the bytes alone, and every character
/// it emits is from the standard alphabet with `=` padding.
#[verifier::external_body]
fn b64_encode_str(s: &str) -> (r: String)
    ensures
        r@ == b64_of(s.spec_bytes()),
        is_b64_seq(r@),
{
    base64::Engine::encode(&base64::engine::general_purpose::STANDARD, s.as_bytes())
}

/// Relies on the base64 crate's `Engine::decode` with the standard padded
/// engine, which inverts `encode`, and on `String::from_utf8`, which for
/// ASCII bytes returns the string of exactly those characters.
#[verifier::external_body]
fn b64_decode_to_string(s: &str) -> (r: Option<String>)
    ensures
        match r {
            Some(d) => forall|t: Seq<char>|
                is_ascii_chars(t) && s@ == b64_of(encode_utf8(t)) ==> d@ == t,
            None => forall|t: Seq<char>| is_ascii_chars(t) ==> s@ != b64_of(encode_utf8(t)),
        },
{
    match base64::Engine::decode(&base64::engine::general_purpose::STANDARD, s.as_bytes()) {
        Ok(bytes) => String::from_utf8(bytes).ok(),
        Err(_) => None,
    }
}

/// A printable ASCII character.
pub open spec fn plain_char(c: char) -> bool {
    ' ' <= c && c <= '~'
}

/// A string of printable ASCII characters.
pub open spec fn plain_seq(s: Seq<char>) -> bool {
    forall|j: int| 0 <= j < s.len() ==> plain_char(#[trigger] s[j])
}

/// Stack items whose names and URLs are printable ASCII.
pub open spec fn wf_items(stack: Seq<StackItem>) -> bool {
    forall|i: int|
        0 <= i < stack.len() ==> plain_seq((#[trigger] stack[i]).bookmark_name@) && plain_seq(
            stack[i].pr_url@,
        )
}

/// The JSON escaping of one character: the quote and the backslash take a
/// backslash in front, everything else stands as it is.
pub open spec fn escape_char(c: char) -> Seq<char> {
    if c == '"' {
        seq!['\\', '"']
    } else if c == '\\' {
        seq!['\\', '\\']
    } else {
        seq![c]
    }
}

/// The JSON escaping of a string.
pub open spec fn escape_seq(s: Seq<char>) -> Seq<char>
    decreases s.len(),
{
    if s.len() == 0 {
        Seq::empty()
    } else {
        escape_seq(s.drop_last()) + escape_char(s.last())
    }
}

fn append_escaped(out: &mut String, s: &str)
    ensures
        final(out)@ == old(out)@ + escape_seq(s@),
{
    let slen = s.unicode_len();
    let mut i: usize = 0;
    while i < slen
        invariant
            slen == s@.len(),
            i <= slen,
            out@ == old(out)@ + escape_seq(s@.take(i as int)),
        decreases slen - i,
    {
        let c = s.get_char(i);
        if c == '"' {
            out.append("\\\"");
            proof {
                reveal_strlit("\\\"");
            }
        } else if c == '\\' {
            out.append("\\\\");
            proof {
                reveal_strlit("\\\\");
            }
        } else {
            let piece = s.substring_char(i, i + 1);
            proof {
                assert(piece@ =~= escape_char(c));
            }
            out.append(piece);
        }
        proof {
            assert(s@.take(i + 1).drop_last() =~= s@.take(i as int));
            assert(s@.take(i + 1).last() == s@[i as int]);
            assert(out@ =~= old(out)@ + escape_seq(s@.take(i + 1)));
        }
        i += 1;
    }
    proof {
        assert(s@.take(slen as int) =~= s@);
    }
}

/// The canonical JSON rendering of one stack item, strings escaped.
pub open spec fn json_of_item(it: StackItem) -> Seq<char> {
    "{\"bookmark_name\":\""@ + escape_seq(it.bookmark_name@) + "\",\"pr_url\":\""@ + escape_seq(
        it.pr_url@,
    ) + "\",\"pr_number\":"@ + spec_u64_string(it.pr_number as nat) + "}"@
}

/// The canonical JSON rendering of the first `n` stack items, joined by
/// commas.
pub open spec fn json_of_items(stack: Seq<StackItem>, n: int) -> Seq<char>
    decreases n,
{
    if n <= 0 {
        Seq::empty()
    } else if n == 1 {
        json_of_item(stack[0])
    } else {
        json_of_items(stack, n - 1) + ","@ + json_of_item(stack[n - 1])
    }
}

/// The canonical JSON rendering of the whole payload.
pub open spec fn json_of_data(version: u8, stack: Seq<StackItem>) -> Seq<char> {
    "{\"version\":"@ + spec_u64_string(version as nat) + ",\"stack\":["@ + json_of_items(
        stack,
        stack.len() as int,
    ) + "]}"@
}

/// Renders the payload as canonical JSON, fields in declaration order and no
/// whitespace.
pub fn render_stack_json(data: &StackCommentData) -> (r: String)
    ensures
        r@ == json_of_data(data.version, data.stack@),
{
    let mut s = String::from_str("{\"version\":");
    let vs = u64_to_string(data.version as u64);
    s.append(vs.as_str());
    s.append(",\"stack\":[");
    let ghost head = "{\"version\":"@ + spec_u64_string(data.version as nat) + ",\"stack\":["@;
    proof {
        assert(s@ == head);
    }
    let mut i: usize = 0;
    while i < data.stack.len()
        invariant
            head == "{\"version\":"@ + spec_u64_string(data.version as nat) + ",\"stack\":["@,
            i <= data.stack@.len(),
            s@ == head + json_of_items(data.stack@, i as int),
        decreases data.stack@.len() - i,
    {
        if i > 0 {
            s.append(",");
        }
        let it = &data.stack[i];
        s.append("{\"bookmark_name\":\"");
        append_escaped(&mut s, it.bookmark_name.as_str());
        s.append("\",\"pr_url\":\"");
        append_escaped(&mut s, it.pr_url.as_str());
        s.append("\",\"pr_number\":");
        let ns = u64_to_string(it.pr_number);
        s.append(ns.as_str());
        s.append("}");
        proof {
            assert(s@ == head + json_of_items(data.stack@, i + 1));
        }
        i += 1;
    }
    s.append("]}");
    proof {
        assert(s@ == json_of_data(data.version, data.stack@));
    }
    s
}

/// The navigation line for the item at position `p`: the line for the
/// comment's own pull request carries the marker, the others link to their
/// pull requests.
pub open spec fn line_for(stack: Seq<StackItem>, idx: int, p: int) -> Seq<char> {
    if p == idx {
        "* **#"@ + spec_u64_string(stack[p].pr_number as nat) + " \u{1F448}**\n"@
    } else {
        "* [#"@ + spec_u64_string(stack[p].pr_number as nat) + "]("@ + stack[p].pr_url@ + ")\n"@
    }
}

/// The navigation lines for the items at positions `hi - 1` down to `lo`.
pub open spec fn lines_between(stack: Seq<StackItem>, idx: int, hi: int, lo: int) -> Seq<char>
    decreases hi - lo,
{
    if hi <= lo {
        Seq::empty()
    } else {
        line_for(stack, idx, hi - 1) + lines_between(stack, idx, hi - 1, lo)
    }
}

/// All navigation lines, newest first.
pub open spec fn spec_lines(stack: Seq<StackItem>, idx: int, p: int) -> Seq<char> {
    lines_between(stack, idx, p, 0)
}

/// Peeling the lowest position off a run of navigation lines.
proof fn lemma_lines_peel_bottom(stack: Seq<StackItem>, idx: int, hi: int, lo: int)
    requires
        hi > lo,
    ensures
        lines_between(stack, idx, hi, lo) == lines_between(stack, idx, hi, lo + 1) + line_for(
            stack,
            idx,
            lo,
        ),
    decreases hi - lo,
{
    if hi - 1 > lo {
        lemma_lines_peel_bottom(stack, idx, hi - 1, lo);
        assert(lines_between(stack, idx, hi, lo) == line_for(stack, idx, hi - 1) + (lines_between(
            stack,
            idx,
            hi - 1,
            lo + 1,
        ) + line_for(stack, idx, lo)));
        assert(line_for(stack, idx, hi - 1) + (lines_between(stack, idx, hi - 1, lo + 1)
            + line_for(stack, idx, lo)) =~= (line_for(stack, idx, hi - 1) + lines_between(
            stack,
            idx,
            hi - 1,
            lo + 1,
        )) + line_for(stack, idx, lo));
    } else {
        assert(hi == lo + 1);
        assert(lines_between(stack, idx, hi, lo) == line_for(stack, idx, lo) + lines_between(
            stack,
            idx,
            lo,
            lo,
        ));
        assert(lines_between(stack, idx, lo, lo) =~= Seq::<char>::empty());
        assert(lines_between(stack, idx, hi, lo + 1) =~= Seq::<char>::empty());
        assert(lines_between(stack, idx, hi, lo) =~= lines_between(stack, idx, hi, lo + 1)
            + line_for(stack, idx, lo));
    }
}

/// The whole comment body: the marker line with the base64 payload, the
/// navigation lines newest first, and the footer.
pub open spec fn spec_comment_body(version: u8, stack: Seq<StackItem>, idx: int) -> Seq<char> {
    "<!--- JJ-RYU_STACK: "@ + b64_of(encode_utf8(json_of_data(version, stack))) + " --->\n"@
        + spec_lines(stack, idx, stack.len() as int)
        + "\n---\nThis stack of pull requests is managed by [jj-ryu](https://github.com/dmmulroy/jj-ryu)."@
}

/// Builds the stack navigation comment body for the pull request at position
/// `current_idx` of the stack.
pub fn build_stack_comment_body(data: &StackCommentData, current_idx: usize) -> (r: String)
    requires
        current_idx < data.stack@.len(),
    ensures
        r@ == spec_comment_body(data.version, data.stack@, current_idx as int),
        is_b64_seq(b64_of(encode_utf8(json_of_data(data.version, data.stack@)))),
{
    let json = render_stack_json(data);
    let js = json.as_str();
    proof {
        assert(js.spec_bytes() == encode_utf8(json_of_data(data.version, data.stack@)));
    }
    let encoded = b64_encode_str(js);
    let mut body = String::from_str("<!--- JJ-RYU_STACK: ");
    body.append(encoded.as_str());
    body.append(" --->\n");
    let ghost head = "<!--- JJ-RYU_STACK: "@ + b64_of(encode_utf8(json_of_data(data.version, data.stack@)))
        + " --->\n"@;
    proof {
        assert(body@ == head);
    }
    let ghost stack = data.stack@;
    let ghost idx = current_idx as int;
    let ghost n = data.stack@.len() as int;
    let mut p: usize = data.stack.len();
    while p > 0
        invariant
            stack == data.stack@,
            idx == current_idx as int,
            n == stack.len() as int,
            current_idx < stack.len(),
            p <= stack.len(),
            body@ == head + lines_between(stack, idx, n, p as int),
        decreases p,
    {
        p -= 1;
        let it = &data.stack[p];
        if p == current_idx {
            body.append("* **#");
            let ns = u64_to_string(it.pr_number);
            body.append(ns.as_str());
            body.append(" \u{1F448}**\n");
        } else {
            body.append("* [#");
            let ns = u64_to_string(it.pr_number);
            body.append(ns.as_str());
            body.append("](");
            body.append(it.pr_url.as_str());
            body.append(")\n");
        }
        proof {
            lemma_lines_peel_bottom(stack, idx, n, p as int);
            assert(body@ == head + lines_between(stack, idx, n, p as int));
        }
    }
    proof {
        assert(body@ == head + spec_lines(stack, idx, n));
    }
    body.append(
        "\n---\nThis stack of pull requests is managed by [jj-ryu](https://github.com/dmmulroy/jj-ryu).",
    );
    body
}

/// Every digit rendering is ASCII.
proof fn lemma_u64_string_ascii(n: nat)
    ensures
        is_ascii_chars(spec_u64_string(n)),
    decreases n,
{
    if n >= 10 {
        lemma_u64_string_ascii(n / 10);
        assert forall|i: int| 0 <= i < spec_u64_string(n).len() implies '\0' <= #[trigger] spec_u64_string(
            n,
        )[i] <= '\u{7f}' by {
            if i < spec_u64_string(n).len() - 1 {
                assert(spec_u64_string(n)[i] == spec_u64_string(n / 10)[i]);
            }
        }
    }
}

/// Joining two ASCII sequences stays ASCII.
proof fn lemma_ascii_concat(a: Seq<char>, b: Seq<char>)
    requires
        is_ascii_chars(a),
        is_ascii_chars(b),
    ensures
        is_ascii_chars(a + b),
{
    assert forall|i: int| 0 <= i < (a + b).len() implies '\0' <= #[trigger] (a + b)[i]
        <= '\u{7f}' by {
        if i < a.len() {
            assert((a + b)[i] == a[i]);
        } else {
            assert((a + b)[i] == b[i - a.len()]);
        }
    }
}

/// The canonical JSON of a payload with plain names and URLs is ASCII.
proof fn lemma_json_ascii(version: u8, stack: Seq<StackItem>)
    requires
        wf_items(stack),
    ensures
        is_ascii_chars(json_of_data(version, stack)),
{
    reveal_strlit("{\"version\":");
    reveal_strlit(",\"stack\":[");
    reveal_strlit("]}");
    lemma_u64_string_ascii(version as nat);
    lemma_json_items_ascii(stack, stack.len() as int);
    lemma_ascii_concat("{\"version\":"@, spec_u64_string(version as nat));
    lemma_ascii_concat("{\"version\":"@ + spec_u64_string(version as nat), ",\"stack\":["@);
    lemma_ascii_concat(
        "{\"version\":"@ + spec_u64_string(version as nat) + ",\"stack\":["@,
        json_of_items(stack, stack.len() as int),
    );
    lemma_ascii_concat(
        "{\"version\":"@ + spec_u64_string(version as nat) + ",\"stack\":["@ + json_of_items(
            stack,
            stack.len() as int,
        ),
        "]}"@,
    );
}

proof fn lemma_escape_ascii(s: Seq<char>)
    requires
        is_ascii_chars(s),
    ensures
        is_ascii_chars(escape_seq(s)),
    decreases s.len(),
{
    if s.len() > 0 {
        lemma_escape_ascii(s.drop_last());
        assert forall|i: int| 0 <= i < escape_seq(s).len() implies '\0' <= #[trigger] escape_seq(
            s,
        )[i] <= '\u{7f}' by {
            if i < escape_seq(s.drop_last()).len() {
                assert(escape_seq(s)[i] == escape_seq(s.drop_last())[i]);
            } else {
                assert(escape_seq(s)[i] == escape_char(s.last())[i - escape_seq(
                    s.drop_last(),
                ).len()]);
            }
        }
    }
}

proof fn lemma_json_item_ascii(it: StackItem)
    requires
        plain_seq(it.bookmark_name@),
        plain_seq(it.pr_url@),
    ensures
        is_ascii_chars(json_of_item(it)),
{
    lemma_escape_ascii(it.bookmark_name@);
    lemma_escape_ascii(it.pr_url@);
    reveal_strlit("{\"bookmark_name\":\"");
    reveal_strlit("\",\"pr_url\":\"");
    reveal_strlit("\",\"pr_number\":");
    reveal_strlit("}");
    lemma_u64_string_ascii(it.pr_number as nat);
    assert(is_ascii_chars(it.bookmark_name@));
    assert(is_ascii_chars(it.pr_url@));
    lemma_ascii_concat("{\"bookmark_name\":\""@, escape_seq(it.bookmark_name@));
    lemma_ascii_concat(
        "{\"bookmark_name\":\""@ + escape_seq(it.bookmark_name@),
        "\",\"pr_url\":\""@,
    );
    lemma_ascii_concat(
        "{\"bookmark_name\":\""@ + escape_seq(it.bookmark_name@) + "\",\"pr_url\":\""@,
        escape_seq(it.pr_url@),
    );
    lemma_ascii_concat(
        "{\"bookmark_name\":\""@ + escape_seq(it.bookmark_name@) + "\",\"pr_url\":\""@
            + escape_seq(it.pr_url@),
        "\",\"pr_number\":"@,
    );
    lemma_ascii_concat(
        "{\"bookmark_name\":\""@ + escape_seq(it.bookmark_name@) + "\",\"pr_url\":\""@
            + escape_seq(it.pr_url@) + "\",\"pr_number\":"@,
        spec_u64_string(it.pr_number as nat),
    );
    lemma_ascii_concat(
        "{\"bookmark_name\":\""@ + escape_seq(it.bookmark_name@) + "\",\"pr_url\":\""@
            + escape_seq(it.pr_url@) + "\",\"pr_number\":"@ + spec_u64_string(
            it.pr_number as nat,
        ),
        "}"@,
    );
}

proof fn lemma_json_items_ascii(stack: Seq<StackItem>, n: int)
    requires
        wf_items(stack),
        n <= stack.len(),
    ensures
        is_ascii_chars(json_of_items(stack, n)),
    decreases n,
{
    reveal_strlit(",");
    if n == 1 {
        lemma_json_item_ascii(stack[0]);
    } else if n > 1 {
        lemma_json_items_ascii(stack, n - 1);
        lemma_json_item_ascii(stack[n - 1]);
        lemma_ascii_concat(json_of_items(stack, n - 1), ","@);
        lemma_ascii_concat(json_of_items(stack, n - 1) + ","@, json_of_item(stack[n - 1]));
    }
}

/// The round-trip hypothesis: the body is a built stack navigation comment
/// whose payload's names and URLs are plain and whose base64 rendering uses
/// the standard alphabet.
pub open spec fn built_body(
    version: u8,
    stack: Seq<StackItem>,
    idx: int,
    body: Seq<char>,
) -> bool {
    &&& wf_items(stack)
    &&& 0 <= idx < stack.len()
    &&& is_b64_seq(b64_of(encode_utf8(json_of_data(version, stack))))
    &&& body == spec_comment_body(version, stack, idx)
}

/// Reads the base64 payload back out of a stack navigation comment body and
/// decodes it: for any built comment body, the result is exactly the
/// canonical JSON the body was built from.
pub fn parse_stack_comment_json(body: &str) -> (r: Option<String>)
    ensures
        forall|version: u8, stack: Seq<StackItem>, idx: int|
            built_body(version, stack, idx, body@) ==> r is Some && (r matches Some(j) && j@
                == json_of_data(version, stack)),
{
    let plen = "<!--- JJ-RYU_STACK: ".unicode_len();
    let blen = body.unicode_len();
    if !crate::strutil::has_prefix(body, "<!--- JJ-RYU_STACK: ") {
        proof {
            assert forall|version: u8, stack: Seq<StackItem>, idx: int|
                !built_body(version, stack, idx, body@) by {
                if built_body(version, stack, idx, body@) {
                    let b64 = b64_of(encode_utf8(json_of_data(version, stack)));
                    assert(body@.subrange(0, "<!--- JJ-RYU_STACK: "@.len() as int) =~= "<!--- JJ-RYU_STACK: "@);
                }
            }
        }
        return None;
    }
    match crate::strutil::find_char(body, ' ', plen) {
        Some(sp) => {
            let payload = body.substring_char(plen, sp);
            let r = b64_decode_to_string(payload);
            proof {
                assert forall|version: u8, stack: Seq<StackItem>, idx: int|
                    built_body(version, stack, idx, body@) implies r is Some && (r matches Some(j)
                    && j@ == json_of_data(version, stack)) by {
                    let jsonv = json_of_data(version, stack);
                    let b64 = b64_of(encode_utf8(jsonv));
                    reveal_strlit(" --->\n");
                    assert(" --->\n"@[0] == ' ');
                    lemma_json_ascii(version, stack);
                    let pl = "<!--- JJ-RYU_STACK: "@.len() as int;
                    assert forall|t: int| pl <= t < pl + b64.len() implies body@[t] != ' ' by {
                        assert(body@[t] == b64[t - pl]);
                        assert(is_b64_char(b64[t - pl]));
                    }
                    assert(body@[pl + b64.len()] == ' ');
                    assert(sp == pl + b64.len()) by {
                        if sp < pl + b64.len() {
                            assert(body@[sp as int] != ' ');
                        }
                        if sp > pl + b64.len() {
                            assert(body@[pl + b64.len()] != ' ');
                        }
                    }
                    assert(payload@ =~= b64);
                    match r {
                        Some(d) => {
                            assert(d@ == jsonv);
                        },
                        None => {
                            assert(payload@ != b64_of(encode_utf8(jsonv)));
                            assert(false);
                        },
                    }
                }
            }
            r
        },
        None => {
            proof {
                assert forall|version: u8, stack: Seq<StackItem>, idx: int|
                    !built_body(version, stack, idx, body@) by {
                    if built_body(version, stack, idx, body@) {
                        let b64 = b64_of(encode_utf8(json_of_data(version, stack)));
                        reveal_strlit(" --->\n");
                        let pl = "<!--- JJ-RYU_STACK: "@.len() as int;
                        assert(body@[pl + b64.len()] == " --->\n"@[0]);
                        assert(body@[pl + b64.len()] == ' ');
                    }
                }
            }
            None
        },
    }
}

} // verus!
