//! Plain-text helpers for the chat layer: escaping message text, the
//! true/false emoji, and validation of remote-account identifiers.

use vstd::prelude::*;

verus! {

/// Characters that the chat transport treats as markup and that must be
/// preceded by a backslash in outgoing text.
pub open spec fn is_markup_char(c: char) -> bool {
    c == '_' || c == '*' || c == '[' || c == ']' || c == '(' || c == ')' || c == '~' || c == '>'
        || c == '#' || c == '+' || c == '-' || c == '=' || c == '|' || c == '{' || c == '}'
        || c == '.' || c == '!'
}

/// One source character expanded to its escaped form.
pub open spec fn escape_unit(c: char) -> Seq<char> {
    if is_markup_char(c) {
        seq!['\\', c]
    } else {
        seq![c]
    }
}

/// The whole string with every markup character escaped.
pub open spec fn escape_markdown(s: Seq<char>) -> Seq<char>
    decreases s.len(),
{
    if s.len() == 0 {
        Seq::empty()
    } else {
        escape_unit(s[0]) + escape_markdown(s.drop_first())
    }
}

proof fn lemma_escape_markdown_push(s: Seq<char>, c: char)
    ensures
        escape_markdown(s.push(c)) == escape_markdown(s) + escape_unit(c),
    decreases s.len(),
{
    if s.len() == 0 {
        assert(s.push(c)[0] == c);
        assert(s.push(c).drop_first() =~= Seq::<char>::empty());
        assert(escape_markdown(s.push(c)) =~= escape_unit(c) + escape_markdown(
            Seq::<char>::empty(),
        ));
        assert(escape_markdown(s.push(c)) =~= escape_unit(c));
        assert(escape_markdown(s) + escape_unit(c) =~= escape_unit(c));
    } else {
        assert(s.push(c).drop_first() =~= s.drop_first().push(c));
        lemma_escape_markdown_push(s.drop_first(), c);
        assert(escape_markdown(s.push(c)) =~= escape_markdown(s) + escape_unit(c));
    }
}

fn is_markup_char_exec(c: char) -> (r: bool)
    ensures
        r == is_markup_char(c),
{
    c == '_' || c == '*' || c == '[' || c == ']' || c == '(' || c == ')' || c == '~' || c == '>'
        || c == '#' || c == '+' || c == '-' || c == '=' || c == '|' || c == '{' || c == '}'
        || c == '.' || c == '!'
}

/// Escape every markup character in `s` with a leading backslash, so the
/// chat transport renders the text literally.
pub fn replace_all(s: &str) -> (r: String)
    ensures
        r@ == escape_markdown(s@),
{
    let n = s.unicode_len();
    let mut out = String::new();
    let mut i: usize = 0;
    while i < n
        invariant
            n == s@.len(),
            i <= n,
            out@ == escape_markdown(s@.take(i as int)),
        decreases n - i,
    {
        let c = s.get_char(i);
        if is_markup_char_exec(c) {
            proof {
                reveal_strlit("\\");
            }
            out.append("\\");
        }
        let piece = s.substring_char(i, i + 1);
        out.append(piece);
        proof {
            lemma_escape_markdown_push(s@.take(i as int), s@[i as int]);
            assert(s@.take(i + 1 as int) =~= s@.take(i as int).push(s@[i as int]));
            assert(s@.subrange(i as int, i + 1 as int) =~= escape_unit(s@[i as int]).drop_first()
                || !is_markup_char(s@[i as int]));
            assert(out@ =~= escape_markdown(s@.take(i + 1 as int)));
        }
        i += 1;
    }
    proof {
        assert(s@.take(n as int) =~= s@);
    }
    out
}

/// The emoji used to render a boolean in chat messages.
pub fn return_tf_emoji(input: bool) -> (r: &'static str)
    ensures
        r@ == (if input {
            "✅"@
        } else {
            "❌"@
        }),
{
    if input {
        "✅"
    } else {
        "❌"
    }
}

/// A well-formed remote-account identifier: the two letters `EI` followed by
/// exactly sixteen decimal digits.
pub open spec fn valid_ei(s: Seq<char>) -> bool {
    &&& s.len() == 18
    &&& s[0] == 'E'
    &&& s[1] == 'I'
    &&& forall|i: int| 2 <= i < 18 ==> '0' <= #[trigger] s[i] <= '9'
}

/// Check that `s` is a well-formed remote-account identifier.
pub fn is_valid_ei(s: &str) -> (r: bool)
    ensures
        r == valid_ei(s@),
{
    let n = s.unicode_len();
    if n != 18 {
        return false;
    }
    if s.get_char(0) != 'E' || s.get_char(1) != 'I' {
        return false;
    }
    let mut i: usize = 2;
    while i < 18
        invariant
            s@.len() == 18,
            2 <= i <= 18,
            forall|j: int| 2 <= j < i ==> '0' <= #[trigger] s@[j] <= '9',
        decreases 18 - i,
    {
        let c = s.get_char(i);
        if c < '0' || c > '9' {
            return false;
        }
        i += 1;
    }
    true
}

} // verus!
