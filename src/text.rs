use vstd::prelude::*;
use vstd::string::*;

verus! {

/// Appends the character at position `i` of `s` to `out`.
fn push_char_at(out: &mut String, s: &str, i: usize)
    requires
        i < s@.len() <= usize::MAX,
    ensures
        final(out)@ == old(out)@.push(s@[i as int]),
{
    let one = s.substring_char(i, i + 1);
    assert(one@ =~= seq![s@[i as int]]);
    out.append(one);
}

/// Longest file name, in characters, that `escape` produces.
pub const MAX_NAME_CHARS: usize = 200;

/// Characters dropped from a name: control characters, the reserved
/// punctuation of the most restrictive supported file system, and the two
/// characters that a shell expands inside double quotes.
pub open spec fn is_forbidden(c: char) -> bool {
    (c as u32) < 32 || (c as u32) == 127 || c == '<' || c == '>' || c == ':' || c == '"'
        || c == '|' || c == '?' || c == '*' || c == '$' || c == '`'
}

/// Path separators, which become a dash.
pub open spec fn is_separator(c: char) -> bool {
    c == '/' || c == '\\'
}

/// Separators turned into dashes and forbidden characters dropped.
pub open spec fn cleaned(s: Seq<char>) -> Seq<char>
    decreases s.len(),
{
    if s.len() == 0 {
        Seq::empty()
    } else {
        let c = s.last();
        let rest = cleaned(s.drop_last());
        if is_forbidden(c) {
            rest
        } else if is_separator(c) {
            rest.push('-')
        } else {
            rest.push(c)
        }
    }
}

/// At most `MAX_NAME_CHARS` characters, the first ones.
pub open spec fn capped(s: Seq<char>) -> Seq<char> {
    if s.len() > MAX_NAME_CHARS {
        s.subrange(0, MAX_NAME_CHARS as int)
    } else {
        s
    }
}

/// The characters that Rust's `char::is_whitespace` accepts: those with the
/// Unicode property White_Space.
pub open spec fn is_white(c: char) -> bool {
    let u = c as u32;
    (9 <= u <= 13) || u == 32 || u == 0x85 || u == 0xa0 || u == 0x1680 || (0x2000 <= u <= 0x200a)
        || u == 0x2028 || u == 0x2029 || u == 0x202f || u == 0x205f || u == 0x3000
}

/// Whether `c` is white space.
pub fn is_white_char(c: char) -> (r: bool)
    ensures
        r == is_white(c),
{
    let u = c as u32;
    (9 <= u && u <= 13) || u == 32 || u == 0x85 || u == 0xa0 || u == 0x1680 || (0x2000 <= u && u
        <= 0x200a) || u == 0x2028 || u == 0x2029 || u == 0x202f || u == 0x205f || u == 0x3000
}

/// Leading white space removed.
pub open spec fn trim_start(s: Seq<char>) -> Seq<char>
    decreases s.len(),
{
    if s.len() > 0 && is_white(s[0]) {
        trim_start(s.drop_first())
    } else {
        s
    }
}

/// Trailing white space removed.
pub open spec fn trim_end(s: Seq<char>) -> Seq<char>
    decreases s.len(),
{
    if s.len() > 0 && is_white(s.last()) {
        trim_end(s.drop_last())
    } else {
        s
    }
}

/// Leading and trailing white space removed.
pub open spec fn trimmed(s: Seq<char>) -> Seq<char> {
    trim_end(trim_start(s))
}

/// The sanitized form of a file name.
pub open spec fn sanitized(s: Seq<char>) -> Seq<char> {
    trimmed(capped(cleaned(s)))
}

/// Turns `input` into a file name that every supported file system accepts
/// and that is safe inside double quotes of a shell command: path separators
/// become dashes, forbidden characters are dropped, the name is cut to
/// `MAX_NAME_CHARS` characters and white space around it is trimmed.
pub fn escape(input: String) -> (r: String)
    ensures
        r@ == sanitized(input@),
{
    let name = input.as_str();
    let n = name.unicode_len();
    let mut clean = String::new();
    let mut i: usize = 0;
    while i < n
        invariant
            n == name@.len(),
            i <= n,
            clean@ == cleaned(name@.subrange(0, i as int)),
        decreases n - i,
    {
        let c = name.get_char(i);
        assert(name@.subrange(0, i + 1).drop_last() =~= name@.subrange(0, i as int));
        if (c as u32) < 32 || (c as u32) == 127 || c == '<' || c == '>' || c == ':' || c == '"'
            || c == '|' || c == '?' || c == '*' || c == '$' || c == '`' {
        } else if c == '/' || c == '\\' {
            let ghost before = clean@;
            clean.append("-");
            proof {
                reveal_strlit("-");
                assert(clean@ =~= before.push('-'));
            }
        } else {
            push_char_at(&mut clean, name, i);
        }
        i = i + 1;
    }
    assert(name@.subrange(0, n as int) =~= name@);
    let s = clean.as_str();
    let len = s.unicode_len();
    let end0: usize = if len > MAX_NAME_CHARS { MAX_NAME_CHARS } else { len };
    let ghost cap = capped(s@);
    assert(cap =~= s@.subrange(0, end0 as int));
    let mut start: usize = 0;
    while start < end0 && is_white_char(s.get_char(start))
        invariant
            end0 <= s@.len() == len,
            cap == s@.subrange(0, end0 as int),
            start <= end0,
            trim_start(cap) == trim_start(s@.subrange(start as int, end0 as int)),
        decreases end0 - start,
    {
        assert(s@.subrange(start as int, end0 as int).drop_first()
            =~= s@.subrange(start + 1, end0 as int));
        start = start + 1;
    }
    assert(trim_start(cap) == s@.subrange(start as int, end0 as int));
    let mut end: usize = end0;
    while end > start && is_white_char(s.get_char(end - 1))
        invariant
            end0 <= s@.len() == len,
            start <= end <= end0,
            trimmed(cap) == trim_end(s@.subrange(start as int, end as int)),
        decreases end - start,
    {
        assert(s@.subrange(start as int, end as int).drop_last()
            =~= s@.subrange(start as int, end - 1));
        end = end - 1;
    }
    assert(trimmed(cap) == s@.subrange(start as int, end as int));
    String::from_str(s.substring_char(start, end))
}

/// No forbidden character and no separator anywhere in `s`.
pub open spec fn is_plain(s: Seq<char>) -> bool {
    forall|i: int| 0 <= i < s.len() ==> !is_forbidden(#[trigger] s[i]) && !is_separator(s[i])
}

proof fn lemma_cleaned_plain(s: Seq<char>)
    ensures
        is_plain(cleaned(s)),
        cleaned(s).len() <= s.len(),
    decreases s.len(),
{
    if s.len() > 0 {
        lemma_cleaned_plain(s.drop_last());
    }
}

proof fn lemma_cleaned_of_plain(s: Seq<char>)
    requires
        is_plain(s),
    ensures
        cleaned(s) == s,
    decreases s.len(),
{
    if s.len() > 0 {
        assert(is_plain(s.drop_last()));
        lemma_cleaned_of_plain(s.drop_last());
        assert(s.drop_last().push(s.last()) =~= s);
    }
}

proof fn lemma_trim_start_suffix(s: Seq<char>)
    ensures
        trim_start(s).len() <= s.len(),
        trim_start(s) == s.subrange(s.len() - trim_start(s).len(), s.len() as int),
        trim_start(s).len() > 0 ==> !is_white(trim_start(s)[0]),
    decreases s.len(),
{
    if s.len() > 0 && is_white(s[0]) {
        lemma_trim_start_suffix(s.drop_first());
        assert(s.drop_first().subrange(
            s.drop_first().len() - trim_start(s).len(),
            s.drop_first().len() as int,
        ) =~= s.subrange(s.len() - trim_start(s).len(), s.len() as int));
    } else {
        assert(s.subrange(0, s.len() as int) =~= s);
    }
}

proof fn lemma_trim_end_prefix(s: Seq<char>)
    ensures
        trim_end(s).len() <= s.len(),
        trim_end(s) == s.subrange(0, trim_end(s).len() as int),
        trim_end(s).len() > 0 ==> !is_white(trim_end(s).last()),
    decreases s.len(),
{
    if s.len() > 0 && is_white(s.last()) {
        lemma_trim_end_prefix(s.drop_last());
        assert(s.drop_last().subrange(0, trim_end(s).len() as int)
            =~= s.subrange(0, trim_end(s).len() as int));
    } else {
        assert(s.subrange(0, s.len() as int) =~= s);
    }
}

/// What `trimmed` returns: a plain part of its input, short as its input,
/// with no white space at either end.
proof fn lemma_trimmed_shape(s: Seq<char>)
    requires
        is_plain(s),
    ensures
        is_plain(trimmed(s)),
        trimmed(s).len() <= s.len(),
        trim_start(trimmed(s)) == trimmed(s),
        trim_end(trimmed(s)) == trimmed(s),
{
    let a = trim_start(s);
    lemma_trim_start_suffix(s);
    lemma_trim_end_prefix(a);
    let r = trim_end(a);
    assert forall|i: int| 0 <= i < r.len() implies !is_forbidden(#[trigger] r[i]) && !is_separator(
        r[i],
    ) by {
        assert(r[i] == a[i]);
        assert(a[i] == s[s.len() - a.len() + i]);
    }
    if r.len() > 0 {
        assert(r[0] == a[0]);
    }
}

/// A sanitized name holds no forbidden character and no separator, is at
/// most `MAX_NAME_CHARS` long and no longer than its input, and has no
/// white space at either end.
pub proof fn lemma_sanitized_shape(name: Seq<char>)
    ensures
        is_plain(sanitized(name)),
        sanitized(name).len() <= MAX_NAME_CHARS,
        sanitized(name).len() <= name.len(),
        sanitized(name).len() > 0 ==> !is_white(sanitized(name)[0]) && !is_white(sanitized(name).last()),
{
    lemma_cleaned_plain(name);
    let k = capped(cleaned(name));
    lemma_trimmed_shape(k);
    let r = sanitized(name);
    if r.len() > 0 {
        lemma_trim_start_suffix(r);
        lemma_trim_end_prefix(r);
    }
}

/// Sanitizing a name that is already sanitized leaves it as it is.
pub proof fn lemma_sanitize_idempotent(name: Seq<char>)
    ensures
        sanitized(sanitized(name)) == sanitized(name),
{
    let c = cleaned(name);
    lemma_cleaned_plain(name);
    let k = capped(c);
    assert(is_plain(k));
    lemma_trimmed_shape(k);
    let x = sanitized(name);
    lemma_cleaned_of_plain(x);
    assert(capped(x) == x);
}


/// No character of `s` is special inside double quotes of a shell command.
pub open spec fn is_quotable(s: Seq<char>) -> bool {
    forall|i: int|
        0 <= i < s.len() ==> #[trigger] s[i] != '"' && s[i] != '$' && s[i] != '`' && s[i] != '\\'
}

/// Whether `s` can stand between double quotes of a shell command as it is.
pub fn quotable(s: &str) -> (r: bool)
    ensures
        r == is_quotable(s@),
{
    let n = s.unicode_len();
    let mut i: usize = 0;
    while i < n
        invariant
            n == s@.len(),
            i <= n,
            is_quotable(s@.subrange(0, i as int)),
        decreases n - i,
    {
        let c = s.get_char(i);
        if c == '"' || c == '$' || c == '`' || c == '\\' {
            assert(!is_quotable(s@)) by {
                assert(s@[i as int] == c);
            }
            return false;
        }
        assert(is_quotable(s@.subrange(0, i + 1))) by {
            assert forall|j: int| 0 <= j < i + 1 implies #[trigger] s@.subrange(0, i + 1)[j] != '"'
                && s@.subrange(0, i + 1)[j] != '$' && s@.subrange(0, i + 1)[j] != '`'
                && s@.subrange(0, i + 1)[j] != '\\' by {
                if j < i {
                    assert(s@.subrange(0, i + 1)[j] == s@.subrange(0, i as int)[j]);
                }
            }
        }
        i = i + 1;
    }
    assert(s@.subrange(0, n as int) =~= s@);
    true
}

/// Characters that an unquoted shell word holds as they are: ASCII letters
/// and digits and `- _ . + = , : @ % /`.
pub open spec fn is_word_char(c: char) -> bool {
    let u = c as u32;
    (97 <= u <= 122) || (65 <= u <= 90) || (48 <= u <= 57) || c == '-' || c == '_' || c == '.'
        || c == '+' || c == '=' || c == ',' || c == ':' || c == '@' || c == '%' || c == '/'
}

/// `s` can stand unquoted in a shell command as one word, as it is.
pub open spec fn is_bare_word(s: Seq<char>) -> bool {
    s.len() > 0 && forall|i: int| 0 <= i < s.len() ==> is_word_char(#[trigger] s[i])
}

/// Whether `s` can stand unquoted in a shell command as one word.
pub fn bare_word(s: &str) -> (r: bool)
    ensures
        r == is_bare_word(s@),
{
    let n = s.unicode_len();
    if n == 0 {
        return false;
    }
    let mut i: usize = 0;
    while i < n
        invariant
            n == s@.len(),
            i <= n,
            forall|j: int| 0 <= j < i ==> is_word_char(#[trigger] s@[j]),
        decreases n - i,
    {
        let c = s.get_char(i);
        let u = c as u32;
        if !((97 <= u && u <= 122) || (65 <= u && u <= 90) || (48 <= u && u <= 57) || c == '-'
            || c == '_' || c == '.' || c == '+' || c == '=' || c == ',' || c == ':' || c == '@'
            || c == '%' || c == '/') {
            assert(!is_word_char(s@[i as int]));
            return false;
        }
        i = i + 1;
    }
    true
}

/// Drops everything from the first `&` of `url` on.
pub fn strip_query(url: &str) -> (r: String)
    ensures
        r@ == url@.subrange(0, r@.len() as int),
        forall|i: int| 0 <= i < r@.len() ==> url@[i] != '&',
        r@.len() < url@.len() ==> url@[r@.len() as int] == '&',
{
    let n = url.unicode_len();
    let mut k: usize = 0;
    while k < n && url.get_char(k) != '&'
        invariant
            n == url@.len(),
            k <= n,
            forall|i: int| 0 <= i < k ==> url@[i] != '&',
        decreases n - k,
    {
        k = k + 1;
    }
    String::from_str(url.substring_char(0, k))
}

} // verus!
