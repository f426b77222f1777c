//! Small building blocks for the configuration page: table fragments,
//! and the writer that strips source-level indentation out of embedded
//! markup.

use vstd::prelude::*;
use vstd::std_specs::iter::IteratorSpec;
use vstd::string::StringExecFns;

use crate::strutil::push_char;

verus! {

/// One table row with one cell.
pub fn tr_td(inner: &str) -> (r: String)
    ensures
        r@ == "<tr><td>"@ + inner@ + "</td></tr>"@,
{
    let mut s = String::from_str("<tr><td>");
    s.append(inner);
    s.append("</td></tr>");
    s
}

/// A table with an optional head section and a body section.
pub open spec fn table_chars(head: Option<Seq<char>>, body: Seq<char>) -> Seq<char> {
    "<table>"@ + (match head {
        Some(h) => "<thead>"@ + h + "</thead>"@,
        None => Seq::empty(),
    }) + "<tbody>"@ + body + "</tbody></table>"@
}

/// Wrap rendered rows in a table, with an optional head.
pub fn table(inner_head: Option<&str>, inner_body: &str) -> (r: String)
    ensures
        r@ == table_chars(
            match inner_head {
                Some(h) => Some(h@),
                None => None,
            },
            inner_body@,
        ),
{
    let mut s = String::from_str("<table>");
    match inner_head {
        Some(h) => {
            s.append("<thead>");
            s.append(h);
            s.append("</thead>");
        },
        None => {},
    }
    s.append("<tbody>");
    s.append(inner_body);
    s.append("</tbody></table>");
    proof {
        assert(s@ =~= table_chars(
            match inner_head {
                Some(h) => Some(h@),
                None => None,
            },
            inner_body@,
        ));
    }
    s
}

/// One named configuration value: the name as a row header, the
/// rendered value beside it.
pub fn config_value(name: &str, inner: &str) -> (r: String)
    ensures
        r@ == "<tr><th scope=\"row\"><pre><code>"@ + name@ + "</code></pre></th><td>"@ + inner@
            + "</td></tr>"@,
{
    let mut s = String::from_str("<tr><th scope=\"row\"><pre><code>");
    s.append(name);
    s.append("</code></pre></th><td>");
    s.append(inner);
    s.append("</td></tr>");
    proof {
        assert(s@ =~= "<tr><th scope=\"row\"><pre><code>"@ + name@ + "</code></pre></th><td>"@
            + inner@ + "</td></tr>"@);
    }
    s
}

/// One key/value row of a mapping table.
pub open spec fn kv_row_chars(k: Seq<char>, v: Seq<char>) -> Seq<char> {
    "<tr><th scope=\"row\">"@ + k + "</th><td>"@ + v + "</td></tr>"@
}

/// The rows of a mapping, in the order given.
pub open spec fn kv_rows_chars(pairs: Seq<(Seq<char>, Seq<char>)>) -> Seq<char>
    decreases pairs.len(),
{
    if pairs.len() == 0 {
        Seq::empty()
    } else {
        kv_row_chars(pairs[0].0, pairs[0].1) + kv_rows_chars(pairs.drop_first())
    }
}

/// The views of a pair list.
pub open spec fn pair_views(pairs: Seq<(String, String)>) -> Seq<(Seq<char>, Seq<char>)> {
    pairs.map_values(|p: (String, String)| (p.0@, p.1@))
}

proof fn lemma_kv_rows_step(pairs: Seq<(Seq<char>, Seq<char>)>, i: int)
    requires
        0 <= i < pairs.len(),
    ensures
        kv_rows_chars(pairs.take(i + 1)) == kv_rows_chars(pairs.take(i)) + kv_row_chars(
            pairs[i].0,
            pairs[i].1,
        ),
    decreases i,
{
    if i == 0 {
        assert(pairs.take(1)[0] == pairs[0]);
        assert(pairs.take(1).drop_first() =~= Seq::<(Seq<char>, Seq<char>)>::empty());
        assert(kv_rows_chars(Seq::<(Seq<char>, Seq<char>)>::empty()) == Seq::<char>::empty());
        assert(pairs.take(0) =~= Seq::<(Seq<char>, Seq<char>)>::empty());
        assert(kv_rows_chars(pairs.take(1)) =~= kv_row_chars(pairs[0].0, pairs[0].1));
        assert(kv_rows_chars(pairs.take(0)) + kv_row_chars(pairs[0].0, pairs[0].1)
            =~= kv_row_chars(pairs[0].0, pairs[0].1));
    } else {
        let sub = pairs.drop_first();
        lemma_kv_rows_step(sub, i - 1);
        assert(pairs.take(i + 1).drop_first() =~= sub.take(i));
        assert(pairs.take(i).drop_first() =~= sub.take(i - 1));
        assert(pairs.take(i + 1)[0] == pairs[0]);
        assert(pairs.take(i)[0] == pairs[0]);
        assert(sub[i - 1] == pairs[i]);
        assert(kv_rows_chars(pairs.take(i + 1)) =~= kv_rows_chars(pairs.take(i)) + kv_row_chars(
            pairs[i].0,
            pairs[i].1,
        ));
    }
}

/// A whole mapping rendered as a table, rows in the order given.
pub fn kv_mapping(pairs: &Vec<(String, String)>) -> (r: String)
    ensures
        r@ == "<table>"@ + kv_rows_chars(pair_views(pairs@)) + "</table>"@,
{
    let ghost views = pair_views(pairs@);
    let mut s = String::from_str("<table>");
    let n = pairs.len();
    let mut i: usize = 0;
    proof {
        assert(views.take(0) =~= Seq::<(Seq<char>, Seq<char>)>::empty());
        assert(s@ =~= "<table>"@ + kv_rows_chars(views.take(0)));
    }
    while i < n
        invariant
            0 <= i <= n,
            n == pairs@.len(),
            views == pair_views(pairs@),
            views.len() == n,
            s@ == "<table>"@ + kv_rows_chars(views.take(i as int)),
        decreases n - i,
    {
        proof {
            lemma_kv_rows_step(views, i as int);
            assert(views[i as int] == (pairs@[i as int].0@, pairs@[i as int].1@));
        }
        s.append("<tr><th scope=\"row\">");
        s.append(pairs[i].0.as_str());
        s.append("</th><td>");
        s.append(pairs[i].1.as_str());
        s.append("</td></tr>");
        proof {
            assert(s@ =~= "<table>"@ + kv_rows_chars(views.take(i as int + 1)));
        }
        i = i + 1;
    }
    s.append("</table>");
    proof {
        assert(views.take(n as int) =~= views);
    }
    s
}

/// What `char::is_whitespace` holds of a character: the Unicode
/// white-space property, a pure function of the character alone.
pub uninterp spec fn char_is_whitespace(c: char) -> bool;

/// Relies on char::is_whitespace: the Unicode White_Space property.
#[verifier::external_body]
fn is_whitespace_char(c: char) -> (r: bool)
    ensures
        r == char_is_whitespace(c),
{
    c.is_whitespace()
}

/// The unindenting transformation: after each newline, whitespace is
/// dropped until the next non-whitespace character.
pub open spec fn unindent_from(s: Seq<char>, in_text: bool) -> Seq<char>
    decreases s.len(),
{
    if s.len() == 0 {
        Seq::empty()
    } else if in_text {
        if s[0] == '\n' {
            seq!['\n'] + unindent_from(s.drop_first(), false)
        } else {
            seq![s[0]] + unindent_from(s.drop_first(), true)
        }
    } else {
        if char_is_whitespace(s[0]) {
            unindent_from(s.drop_first(), false)
        } else {
            seq![s[0]] + unindent_from(s.drop_first(), true)
        }
    }
}

/// A sink that strips source indentation as text streams through it.
#[derive(Debug)]
pub struct Unindenter {
    inner: String,
}

impl Unindenter {
    /// The view: everything written so far, unindented.
    pub closed spec fn spec_inner(&self) -> Seq<char> {
        self.inner@
    }

    /// An empty sink.
    pub fn new() -> (r: Unindenter)
        ensures
            r.spec_inner() == Seq::<char>::empty(),
    {
        Unindenter { inner: String::new() }
    }

    /// Stream one chunk through the unindenter. Each chunk starts in
    /// text mode afresh.
    pub fn write_str(&mut self, s: &str)
        ensures
            final(self).spec_inner() == old(self).spec_inner() + unindent_from(s@, true),
    {
        broadcast use vstd::string::axiom_spec_iter, vstd::string::next_postcondition;

        let ghost full: Seq<char> = s@;
        let ghost base: Seq<char> = self.inner@;
        let mut it = s.chars();
        let mut in_text = true;
        let ghost mut i: int = 0;
        proof {
            assert(full.skip(0) =~= full);
            assert(base + unindent_from(full.skip(0), true) =~= base + unindent_from(full, true));
        }
        loop
            invariant
                0 <= i <= full.len(),
                full == s@,
                base == old(self).spec_inner(),
                it.remaining() == full.skip(i),
                base + unindent_from(full, true) == self.inner@ + unindent_from(
                    full.skip(i),
                    in_text,
                ),
            decreases full.len() - i,
        {
            let c = match it.next() {
                None => {
                    proof {
                        assert(full.skip(i).len() == 0);
                        assert(unindent_from(full.skip(i), in_text) == Seq::<char>::empty());
                        assert(self.inner@ + Seq::<char>::empty() =~= self.inner@);
                    }
                    return ;
                },
                Some(c) => c,
            };
            assert(c == full[i]);
            proof {
                assert(full.skip(i).drop_first() =~= full.skip(i + 1));
                assert(full.skip(i)[0] == full[i]);
            }
            if in_text {
                push_char(&mut self.inner, c);
                if c == '\n' {
                    in_text = false;
                }
            } else {
                if !is_whitespace_char(c) {
                    push_char(&mut self.inner, c);
                    in_text = true;
                }
            }
            proof {
                assert(base + unindent_from(full, true) =~= self.inner@ + unindent_from(
                    full.skip(i + 1),
                    in_text,
                ));
                i = i + 1;
            }
        }
    }

    /// Hand the accumulated text back.
    pub fn into_inner(self) -> (r: String)
        ensures
            r@ == self.spec_inner(),
    {
        self.inner
    }
}

} // verus!
