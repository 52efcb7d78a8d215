//! Output post-formatting: wrapping a processed template in a Markdown fence
//! or in escaped HTML. Selected once at the boundary, outside the engine.

use vstd::prelude::*;

use crate::text::str_to_chars;
use crate::text::chars_to_string;
use crate::text::append_chars;

verus! {

/// The content wrapped in a Markdown code fence.
pub open spec fn markdown_wrapped(content: Seq<char>) -> Seq<char> {
    "```\n"@ + content + "\n```"@
}

/// Wraps content as a Markdown code block.
pub fn format_as_markdown(content: &str) -> (r: String)
    ensures
        r@ == markdown_wrapped(content@),
{
    let mut s = String::new();
    s.append("```\n");
    s.append(content);
    s.append("\n```");
    proof {
        assert(s@ =~= markdown_wrapped(content@));
    }
    s
}

/// One character HTML-escaped.
pub open spec fn html_escape_char(c: char) -> Seq<char> {
    if c == '&' {
        "&amp;"@
    } else if c == '<' {
        "&lt;"@
    } else if c == '>' {
        "&gt;"@
    } else {
        seq![c]
    }
}

/// A text with `&`, `<` and `>` HTML-escaped.
pub open spec fn html_escaped(s: Seq<char>) -> Seq<char>
    decreases s.len(),
{
    if s.len() == 0 {
        Seq::empty()
    } else {
        html_escape_char(s[0]) + html_escaped(s.skip(1))
    }
}

proof fn lemma_html_escaped_push(s: Seq<char>, c: char)
    ensures
        html_escaped(s.push(c)) == html_escaped(s) + html_escape_char(c),
    decreases s.len(),
{
    if s.len() == 0 {
        assert(s.push(c)[0] == c);
        assert(s.push(c).skip(1) =~= Seq::<char>::empty());
        assert(html_escaped(Seq::<char>::empty()) == Seq::<char>::empty());
        assert(html_escaped(s.push(c)) == html_escape_char(c) + html_escaped(s.push(c).skip(1)));
        assert(html_escaped(s.push(c)) =~= html_escape_char(c));
        assert(html_escaped(s) + html_escape_char(c) =~= html_escape_char(c));
    } else {
        assert(s.push(c)[0] == s[0]);
        assert(s.push(c).skip(1) =~= s.skip(1).push(c));
        lemma_html_escaped_push(s.skip(1), c);
        assert(html_escaped(s.push(c)) == html_escape_char(s[0]) + (html_escaped(s.skip(1))
            + html_escape_char(c)));
        assert(html_escape_char(s[0]) + (html_escaped(s.skip(1)) + html_escape_char(c)) =~= (
        html_escape_char(s[0]) + html_escaped(s.skip(1))) + html_escape_char(c));
    }
}

/// The content wrapped in an HTML code block, escaped.
pub open spec fn html_wrapped(content: Seq<char>) -> Seq<char> {
    "<pre><code>"@ + html_escaped(content) + "</code></pre>"@
}

/// Wraps content as HTML, escaping `&`, `<` and `>`.
pub fn format_as_html(content: &str) -> (r: String)
    ensures
        r@ == html_wrapped(content@),
{
    let cv = str_to_chars(content);
    let mut body: Vec<char> = Vec::new();
    let amp = str_to_chars("&amp;");
    let lt = str_to_chars("&lt;");
    let gt = str_to_chars("&gt;");
    let mut i: usize = 0;
    proof {
        assert(cv@.take(0) =~= Seq::<char>::empty());
        assert(html_escaped(cv@.take(0)) =~= Seq::<char>::empty());
    }
    while i < cv.len()
        invariant
            i <= cv@.len(),
            cv@ == content@,
            amp@ == "&amp;"@,
            lt@ == "&lt;"@,
            gt@ == "&gt;"@,
            body@ == html_escaped(cv@.take(i as int)),
        decreases cv@.len() - i,
    {
        proof {
            lemma_html_escaped_push(cv@.take(i as int), cv@[i as int]);
            assert(cv@.take(i as int + 1) =~= cv@.take(i as int).push(cv@[i as int]));
        }
        let c = cv[i];
        if c == '&' {
            append_chars(&mut body, &amp);
        } else if c == '<' {
            append_chars(&mut body, &lt);
        } else if c == '>' {
            append_chars(&mut body, &gt);
        } else {
            body.push(c);
            proof {
                assert(seq![c] =~= html_escape_char(c));
                assert(body@ =~= html_escaped(cv@.take(i as int)) + html_escape_char(c));
            }
        }
        i = i + 1;
    }
    proof {
        assert(cv@.take(cv@.len() as int) =~= cv@);
    }
    let body_str = chars_to_string(&body);
    let mut s = String::new();
    s.append("<pre><code>");
    s.append(body_str.as_str());
    s.append("</code></pre>");
    proof {
        assert(s@ =~= html_wrapped(content@));
    }
    s
}

} // verus!
