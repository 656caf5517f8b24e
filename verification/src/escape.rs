use vstd::prelude::*;
use vstd::string::*;

verus! {

/// Relies on String::push: appends the given character to the end of the string.
pub assume_specification[ String::push ](s: &mut String, ch: char)
    ensures
        final(s)@ == old(s)@.push(ch),
;

/// How one character is written when it stands in element content or in a
/// quoted attribute value: the four characters that are structurally
/// significant there are replaced by entities, every other character is
/// kept as it is.
pub open spec fn html_escape_char(c: char) -> Seq<char> {
    if c == '<' {
        "&lt;"@
    } else if c == '>' {
        "&gt;"@
    } else if c == '&' {
        "&amp;"@
    } else if c == '"' {
        "&quot;"@
    } else {
        seq![c]
    }
}

/// The escaped form of a whole text run: each character replaced by its
/// escaped form, in order.
pub open spec fn html_escaped(s: Seq<char>) -> Seq<char>
    decreases s.len(),
{
    if s.len() == 0 {
        Seq::empty()
    } else {
        html_escape_char(s[0]) + html_escaped(s.skip(1))
    }
}

/// How one character is written inside a quoted URL attribute value:
/// the characters unsafe there are percent-encoded, the ampersand becomes
/// an entity, every other character is kept as it is.
pub open spec fn href_escape_char(c: char) -> Seq<char> {
    if c == '&' {
        "&amp;"@
    } else if c == ' ' {
        "%20"@
    } else if c == '"' {
        "%22"@
    } else if c == '\'' {
        "%27"@
    } else if c == '<' {
        "%3C"@
    } else if c == '>' {
        "%3E"@
    } else if c == '`' {
        "%60"@
    } else {
        seq![c]
    }
}

/// The escaped form of a whole URL.
pub open spec fn href_escaped(s: Seq<char>) -> Seq<char>
    decreases s.len(),
{
    if s.len() == 0 {
        Seq::empty()
    } else {
        href_escape_char(s[0]) + href_escaped(s.skip(1))
    }
}

pub proof fn lemma_html_escaped_snoc(s: Seq<char>, c: char)
    ensures
        html_escaped(s.push(c)) == html_escaped(s) + html_escape_char(c),
    decreases s.len(),
{
    if s.len() == 0 {
        assert(s.push(c)[0] == c);
        assert(s.push(c).skip(1) =~= Seq::<char>::empty());
        assert(html_escaped(Seq::<char>::empty()) == Seq::<char>::empty());
        assert(html_escaped(s.push(c)) == html_escape_char(c) + Seq::<char>::empty());
        assert(html_escape_char(c) + Seq::<char>::empty() =~= html_escape_char(c));
        assert(html_escaped(s) + html_escape_char(c) =~= html_escape_char(c));
    } else {
        assert(s.push(c).skip(1) =~= s.skip(1).push(c));
        lemma_html_escaped_snoc(s.skip(1), c);
        assert(s.push(c)[0] == s[0]);
        assert(html_escaped(s.push(c)) == html_escape_char(s[0]) + (html_escaped(s.skip(1))
            + html_escape_char(c)));
        assert(html_escape_char(s[0]) + (html_escaped(s.skip(1)) + html_escape_char(c)) =~= (
        html_escape_char(s[0]) + html_escaped(s.skip(1))) + html_escape_char(c));
    }
}

pub proof fn lemma_href_escaped_snoc(s: Seq<char>, c: char)
    ensures
        href_escaped(s.push(c)) == href_escaped(s) + href_escape_char(c),
    decreases s.len(),
{
    if s.len() == 0 {
        assert(s.push(c)[0] == c);
        assert(s.push(c).skip(1) =~= Seq::<char>::empty());
        assert(href_escaped(Seq::<char>::empty()) == Seq::<char>::empty());
        assert(href_escaped(s.push(c)) == href_escape_char(c) + Seq::<char>::empty());
        assert(href_escape_char(c) + Seq::<char>::empty() =~= href_escape_char(c));
        assert(href_escaped(s) + href_escape_char(c) =~= href_escape_char(c));
    } else {
        assert(s.push(c).skip(1) =~= s.skip(1).push(c));
        lemma_href_escaped_snoc(s.skip(1), c);
        assert(s.push(c)[0] == s[0]);
        assert(href_escaped(s.push(c)) == href_escape_char(s[0]) + (href_escaped(s.skip(1))
            + href_escape_char(c)));
        assert(href_escape_char(s[0]) + (href_escaped(s.skip(1)) + href_escape_char(c)) =~= (
        href_escape_char(s[0]) + href_escaped(s.skip(1))) + href_escape_char(c));
    }
}

/// Escapes a text run for inclusion in element content or in a quoted
/// attribute value.
pub fn escape_html(s: &str) -> (t: String)
    ensures
        t@ == html_escaped(s@),
{
    let n = s.unicode_len();
    let mut t = String::new();
    let mut i: usize = 0;
    proof {
        assert(s@.take(0) =~= Seq::<char>::empty());
    }
    while i < n
        invariant
            n == s@.len(),
            i <= n,
            t@ == html_escaped(s@.take(i as int)),
        decreases n - i,
    {
        let c = s.get_char(i);
        proof {
            lemma_html_escaped_snoc(s@.take(i as int), c);
            assert(s@.take(i as int).push(c) =~= s@.take(i + 1 as int));
        }
        if c == '<' {
            t.append("&lt;");
        } else if c == '>' {
            t.append("&gt;");
        } else if c == '&' {
            t.append("&amp;");
        } else if c == '"' {
            t.append("&quot;");
        } else {
            t.push(c);
            proof {
                assert(t@ =~= html_escaped(s@.take(i as int)) + html_escape_char(c));
            }
        }
        i = i + 1;
    }
    proof {
        assert(s@.take(n as int) =~= s@);
    }
    t
}

/// Escapes a URL for inclusion in a quoted attribute value.
pub fn escape_href(s: &str) -> (t: String)
    ensures
        t@ == href_escaped(s@),
{
    let n = s.unicode_len();
    let mut t = String::new();
    let mut i: usize = 0;
    proof {
        assert(s@.take(0) =~= Seq::<char>::empty());
    }
    while i < n
        invariant
            n == s@.len(),
            i <= n,
            t@ == href_escaped(s@.take(i as int)),
        decreases n - i,
    {
        let c = s.get_char(i);
        proof {
            lemma_href_escaped_snoc(s@.take(i as int), c);
            assert(s@.take(i as int).push(c) =~= s@.take(i + 1 as int));
        }
        if c == '&' {
            t.append("&amp;");
        } else if c == ' ' {
            t.append("%20");
        } else if c == '"' {
            t.append("%22");
        } else if c == '\'' {
            t.append("%27");
        } else if c == '<' {
            t.append("%3C");
        } else if c == '>' {
            t.append("%3E");
        } else if c == '`' {
            t.append("%60");
        } else {
            t.push(c);
            proof {
                assert(t@ =~= href_escaped(s@.take(i as int)) + href_escape_char(c));
            }
        }
        i = i + 1;
    }
    proof {
        assert(s@.take(n as int) =~= s@);
    }
    t
}

/// The decimal digit character for one digit value.
pub open spec fn dec_digit(d: int) -> char {
    if d == 0 {
        '0'
    } else if d == 1 {
        '1'
    } else if d == 2 {
        '2'
    } else if d == 3 {
        '3'
    } else if d == 4 {
        '4'
    } else if d == 5 {
        '5'
    } else if d == 6 {
        '6'
    } else if d == 7 {
        '7'
    } else if d == 8 {
        '8'
    } else {
        '9'
    }
}

/// The decimal notation of a non-negative number, most significant digit
/// first, without leading zeros (a single zero for the number zero).
pub open spec fn dec_str(n: int) -> Seq<char>
    recommends
        n >= 0,
    decreases n,
{
    if n < 10 {
        seq![dec_digit(n)]
    } else {
        dec_str(n / 10).push(dec_digit(n % 10))
    }
}

fn dec_digit_exec(d: u64) -> (c: char)
    requires
        d < 10,
    ensures
        c == dec_digit(d as int),
{
    if d == 0 {
        '0'
    } else if d == 1 {
        '1'
    } else if d == 2 {
        '2'
    } else if d == 3 {
        '3'
    } else if d == 4 {
        '4'
    } else if d == 5 {
        '5'
    } else if d == 6 {
        '6'
    } else if d == 7 {
        '7'
    } else if d == 8 {
        '8'
    } else {
        '9'
    }
}

/// The decimal notation of a number, as a string.
pub fn u64_to_string(n: u64) -> (t: String)
    ensures
        t@ == dec_str(n as int),
    decreases n,
{
    if n < 10 {
        let mut t = String::new();
        t.push(dec_digit_exec(n));
        proof {
            assert(t@ =~= seq![dec_digit(n as int)]);
        }
        t
    } else {
        let mut t = u64_to_string(n / 10);
        t.push(dec_digit_exec(n % 10));
        t
    }
}

/// Whether a character delimits the tokens of an info string: a space, a
/// tab, a newline or a carriage return.
pub open spec fn is_whitespace(c: char) -> bool {
    c == ' ' || c == '\t' || c == '\n' || c == '\r'
}

/// The length of the leading run of characters before the first whitespace
/// character; the whole text when it holds none.
pub open spec fn token_len(s: Seq<char>) -> int
    decreases s.len(),
{
    if s.len() == 0 {
        0
    } else if is_whitespace(s[0]) {
        0
    } else {
        1 + token_len(s.skip(1))
    }
}

/// The first whitespace-delimited token of a text run.
pub open spec fn first_token(s: Seq<char>) -> Seq<char> {
    s.take(token_len(s))
}

pub proof fn lemma_token_len_at(s: Seq<char>, k: int)
    requires
        0 <= k <= s.len(),
        forall|j: int| 0 <= j < k ==> !is_whitespace(s[j]),
        k < s.len() ==> is_whitespace(s[k]),
    ensures
        token_len(s) == k,
    decreases k,
{
    if k == 0 {
    } else {
        assert(!is_whitespace(s[0]));
        lemma_token_len_at(s.skip(1), k - 1);
    }
}

/// Extracts the first whitespace-delimited token of a text run.
pub fn first_token_str(s: &str) -> (t: &str)
    ensures
        t@ == first_token(s@),
{
    let n = s.unicode_len();
    let mut i: usize = 0;
    loop
        invariant
            n == s@.len(),
            i <= n,
            forall|j: int| 0 <= j < i ==> !is_whitespace(s@[j]),
        ensures
            i <= n,
            forall|j: int| 0 <= j < i ==> !is_whitespace(s@[j]),
            i < n ==> is_whitespace(s@[i as int]),
        decreases n - i,
    {
        if i >= n {
            break ;
        }
        let c = s.get_char(i);
        if c == ' ' || c == '\t' || c == '\n' || c == '\r' {
            break ;
        }
        i = i + 1;
    }
    proof {
        lemma_token_len_at(s@, i as int);
    }
    s.substring_char(0, i)
}

/// Whether a text run ends with a newline character.
pub open spec fn ends_nl(t: Seq<char>) -> bool {
    t.len() > 0 && t[t.len() - 1] == '\n'
}

/// Tests whether a text run ends with a newline character.
pub fn str_ends_newline(s: &str) -> (b: bool)
    ensures
        b == ends_nl(s@),
{
    let n = s.unicode_len();
    if n == 0 {
        false
    } else {
        s.get_char(n - 1) == '\n'
    }
}

} // verus!
