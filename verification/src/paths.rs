//! Directory and file paths of the tools' configuration, as text.

use vstd::prelude::*;
use vstd::string::*;

verus! {

/// Whether a character has the Unicode `White_Space` property, which is what
/// `char::is_whitespace` tests: tab, line feed, vertical tab, form feed, carriage
/// return, space, next line, no-break space, ogham space mark, the spaces from en quad
/// to hair space, line and paragraph separator, narrow no-break space, medium
/// mathematical space and ideographic space.
pub open spec fn unicode_white_space(c: char) -> bool {
    let u = c as u32;
    ||| 0x09 <= u <= 0x0D
    ||| u == 0x20
    ||| u == 0x85
    ||| u == 0xA0
    ||| u == 0x1680
    ||| 0x2000 <= u <= 0x200A
    ||| u == 0x2028
    ||| u == 0x2029
    ||| u == 0x202F
    ||| u == 0x205F
    ||| u == 0x3000
}

/// Whether a character is whitespace, as `char::is_whitespace` decides.
fn is_whitespace(c: char) -> (b: bool)
    ensures
        b == unicode_white_space(c),
{
    let u = c as u32;
    (0x09 <= u && u <= 0x0D) || u == 0x20 || u == 0x85 || u == 0xA0 || u == 0x1680
        || (0x2000 <= u && u <= 0x200A) || u == 0x2028 || u == 0x2029 || u == 0x202F
        || u == 0x205F || u == 0x3000
}

/// The text without its leading whitespace.
pub open spec fn trim_start_spec(s: Seq<char>) -> Seq<char>
    decreases s.len(),
{
    if s.len() > 0 && unicode_white_space(s[0]) {
        trim_start_spec(s.drop_first())
    } else {
        s
    }
}

/// The text without its trailing whitespace.
pub open spec fn trim_end_spec(s: Seq<char>) -> Seq<char>
    decreases s.len(),
{
    if s.len() > 0 && unicode_white_space(s.last()) {
        trim_end_spec(s.drop_last())
    } else {
        s
    }
}

/// `str::trim`: the text without leading and trailing whitespace.
pub open spec fn trim_spec(s: Seq<char>) -> Seq<char> {
    trim_end_spec(trim_start_spec(s))
}

/// Trimming the start drops the leading whitespace characters and nothing else.
proof fn lemma_trim_start(s: Seq<char>) -> (i: int)
    ensures
        0 <= i <= s.len(),
        trim_start_spec(s) == s.subrange(i, s.len() as int),
        forall|k: int| 0 <= k < i ==> unicode_white_space(#[trigger] s[k]),
        trim_start_spec(s).len() > 0 ==> !unicode_white_space(trim_start_spec(s)[0]),
    decreases s.len(),
{
    if s.len() > 0 && unicode_white_space(s[0]) {
        let r = lemma_trim_start(s.drop_first());
        assert forall|k: int| 0 <= k < r + 1 implies unicode_white_space(#[trigger] s[k]) by {
            if k > 0 {
                assert(s[k] == s.drop_first()[k - 1]);
            }
        }
        assert(s.drop_first().subrange(r, s.drop_first().len() as int) =~= s.subrange(r + 1, s.len() as int));
        r + 1
    } else {
        assert(s.subrange(0, s.len() as int) =~= s);
        0
    }
}

/// Trimming the end drops the trailing whitespace characters and nothing else.
proof fn lemma_trim_end(s: Seq<char>) -> (j: int)
    ensures
        0 <= j <= s.len(),
        trim_end_spec(s) == s.subrange(0, j),
        forall|k: int| j <= k < s.len() ==> unicode_white_space(#[trigger] s[k]),
        trim_end_spec(s).len() > 0 ==> !unicode_white_space(trim_end_spec(s).last()),
    decreases s.len(),
{
    if s.len() > 0 && unicode_white_space(s.last()) {
        let r = lemma_trim_end(s.drop_last());
        assert forall|k: int| r <= k < s.len() implies unicode_white_space(#[trigger] s[k]) by {
            if k < s.len() - 1 {
                assert(s[k] == s.drop_last()[k]);
            }
        }
        assert(s.drop_last().subrange(0, r) =~= s.subrange(0, r));
        r
    } else {
        assert(s.subrange(0, s.len() as int) =~= s);
        s.len() as int
    }
}

/// Trimming removes whitespace at both ends and nothing else: the result is a piece
/// of the text, everything before and after it is whitespace, and it neither starts
/// nor ends with whitespace.
pub proof fn law_trim_removes_only_outer_whitespace(s: Seq<char>)
    ensures
        exists|i: int, j: int| #![trigger s.subrange(i, j)] {
            &&& 0 <= i <= j <= s.len()
            &&& trim_spec(s) == s.subrange(i, j)
            &&& forall|k: int| 0 <= k < i ==> unicode_white_space(#[trigger] s[k])
            &&& forall|k: int| j <= k < s.len() ==> unicode_white_space(#[trigger] s[k])
        },
        trim_spec(s).len() > 0 ==> !unicode_white_space(trim_spec(s)[0])
            && !unicode_white_space(trim_spec(s).last()),
{
    let i = lemma_trim_start(s);
    let t1 = trim_start_spec(s);
    let j1 = lemma_trim_end(t1);
    let j = i + j1;
    assert(t1.subrange(0, j1) =~= s.subrange(i, j));
    assert forall|k: int| j <= k < s.len() implies unicode_white_space(#[trigger] s[k]) by {
        assert(s[k] == t1[k - i]);
    }
    if trim_spec(s).len() > 0 {
        assert(trim_spec(s)[0] == t1[0]);
    }
}

/// Removes leading and trailing whitespace, as `str::trim` does.
pub fn trim_whitespace(text: &str) -> (trimmed: String)
    ensures
        trimmed@ == trim_spec(text@),
{
    let ghost s = text@;
    let len = text.unicode_len();
    let mut start: usize = 0;
    assert(s.skip(0) =~= s);
    while start < len && is_whitespace(text.get_char(start))
        invariant
            s == text@,
            len == s.len(),
            start <= len,
            trim_start_spec(s) == trim_start_spec(s.skip(start as int)),
        decreases len - start,
    {
        assert(s.skip(start as int).drop_first() =~= s.skip(start + 1));
        start = start + 1;
    }
    let ghost rest = s.skip(start as int);
    let mut end: usize = len;
    assert(rest.take(rest.len() as int) =~= rest);
    while end > start && is_whitespace(text.get_char(end - 1))
        invariant
            s == text@,
            len == s.len(),
            start <= end <= len,
            rest == s.skip(start as int),
            trim_start_spec(s) == rest,
            trim_end_spec(rest) == trim_end_spec(rest.take(end - start)),
        decreases end - start,
    {
        assert(rest.take(end - start).last() == s[end - 1]);
        assert(rest.take(end - start).drop_last() =~= rest.take(end - 1 - start));
        end = end - 1;
    }
    assert(rest.take(end - start) =~= s.subrange(start as int, end as int));
    String::from_str(text.substring_char(start, end))
}

/// `Path::join`: an absolute name (one that starts with `/`) takes the place of the
/// base; any other name follows the base, with a `/` between them unless the base is
/// empty or already ends with one (so an empty name adds a trailing `/`).
pub open spec fn join_spec(base: Seq<char>, name: Seq<char>) -> Seq<char> {
    if name.len() > 0 && name[0] == '/' {
        name
    } else if base.len() == 0 {
        name
    } else if base.last() == '/' {
        base + name
    } else {
        base + seq!['/'] + name
    }
}

/// Joining puts a relative name under the base, after a slash unless the base is
/// empty or already ends in one; an absolute name replaces the base. The name is
/// always kept whole at the end.
pub proof fn law_join_places_name_under_base(base: Seq<char>, name: Seq<char>)
    ensures
        join_spec(base, name).len() >= name.len(),
        join_spec(base, name).subrange(join_spec(base, name).len() - name.len(), join_spec(base, name).len() as int) == name,
        name.len() > 0 && name[0] == '/' ==> join_spec(base, name) == name,
        !(name.len() > 0 && name[0] == '/') && base.len() > 0 && base.last() != '/'
            ==> join_spec(base, name) == base + seq!['/'] + name,
        !(name.len() > 0 && name[0] == '/') && base.len() > 0 && base.last() == '/'
            ==> join_spec(base, name) == base + name,
        !(name.len() > 0 && name[0] == '/') ==> join_spec(base, name).subrange(0, base.len() as int) == base,
{
    let j = join_spec(base, name);
    assert(j.subrange(j.len() - name.len(), j.len() as int) =~= name);
    if !(name.len() > 0 && name[0] == '/') {
        assert(j.subrange(0, base.len() as int) =~= base);
    }
}

/// Joins a name to a base path, as `Path::join` does.
pub fn join_path(base: &str, name: &str) -> (path: String)
    ensures
        path@ == join_spec(base@, name@),
{
    let name_len = name.unicode_len();
    if name_len > 0 && name.get_char(0) == '/' {
        return String::from_str(name);
    }
    let len = base.unicode_len();
    let mut path = String::from_str(base);
    if len > 0 && base.get_char(len - 1) != '/' {
        path.append("/");
        proof { reveal_strlit("/"); }
    }
    path.append(name);
    proof {
        if base@.len() == 0 {
            assert(path@ =~= name@);
        }
    }
    path
}

} // verus!
