//! Text escaping for the SVG output.
use vstd::prelude::*;
use crate::types::push_text_char;

verus! {

broadcast use vstd::string::group_string_axioms;

/// The markup for one character: `&`, `<`, `>` and `"` become entity references.
pub open spec fn escape_char(c: char) -> Seq<char> {
    if c == '&' {
        "&amp;"@
    } else if c == '<' {
        "&lt;"@
    } else if c == '>' {
        "&gt;"@
    } else if c == '"' {
        "&quot;"@
    } else {
        seq![c]
    }
}

/// The markup for a text: each character escaped in turn.
pub open spec fn xml_escaped(s: Seq<char>) -> Seq<char>
    decreases s.len(),
{
    if s.len() == 0 {
        Seq::empty()
    } else {
        xml_escaped(s.drop_last()) + escape_char(s.last())
    }
}

/// Escapes `&`, `<`, `>` and `"` for use in XML text and attribute values.
pub fn xml_escape(input: &str) -> (out: String)
    ensures
        out@ == xml_escaped(input@),
{
    let mut out = String::new();
    for c in it: input.chars()
        invariant
            it.seq() == input@,
            out@ == xml_escaped(input@.take(it.index())),
    {
        let ghost before = out@;
        let ghost k = it.index();
        if c == '&' {
            out.append("&amp;");
        } else if c == '<' {
            out.append("&lt;");
        } else if c == '>' {
            out.append("&gt;");
        } else if c == '"' {
            out.append("&quot;");
        } else {
            push_text_char(&mut out, c);
        }
        proof {
            assert(input@.take(k + 1).drop_last() =~= input@.take(k));
            assert(input@.take(k + 1).last() == c);
        }
    }
    assert(input@.take(input@.len() as int) =~= input@);
    out
}

/// Escaped text holds no `<`, `>` or `"`.
pub proof fn escaped_has_no_markup(s: Seq<char>)
    ensures
        !xml_escaped(s).contains('<'),
        !xml_escaped(s).contains('>'),
        !xml_escaped(s).contains('"'),
    decreases s.len(),
{
    reveal_strlit("&amp;");
    reveal_strlit("&lt;");
    reveal_strlit("&gt;");
    reveal_strlit("&quot;");
    if s.len() > 0 {
        escaped_has_no_markup(s.drop_last());
        let prev = xml_escaped(s.drop_last());
        let tail = escape_char(s.last());
        let all = prev + tail;
        assert(all == xml_escaped(s));
        assert forall|c: char| c == '<' || c == '>' || c == '"' implies !all.contains(c) by {
            if all.contains(c) {
                let k = choose|k: int| 0 <= k < all.len() && all[k] == c;
                if k < prev.len() {
                    assert(prev[k] == c);
                } else {
                    assert(tail[k - prev.len()] == c);
                }
            }
        }
    }
}

} // verus!
