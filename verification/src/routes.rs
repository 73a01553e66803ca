//! The paths of the pages: how they are written and how they are read.

use crate::text::{chars_of, decimal, parse_i64_in, parse_i64_spec, push_decimal, string_of};
use crate::types::{Comment, StoryItem, UserData};
use vstd::prelude::*;

verus! {

/// Whether `c` has the Unicode property `White_Space`.
pub open spec fn is_whitespace(c: char) -> bool {
    let u = c as u32;
    (0x09 <= u <= 0x0d) || u == 0x20 || u == 0x85 || u == 0xa0 || u == 0x1680 || (0x2000 <= u
        <= 0x200a) || u == 0x2028 || u == 0x2029 || u == 0x202f || u == 0x205f || u == 0x3000
}

/// `s` without the white space at its start.
pub open spec fn trim_start(s: Seq<char>) -> Seq<char>
    decreases s.len(),
{
    if s.len() > 0 && is_whitespace(s[0]) {
        trim_start(s.skip(1))
    } else {
        s
    }
}

/// `s` without the white space at its end.
pub open spec fn trim_end(s: Seq<char>) -> Seq<char>
    decreases s.len(),
{
    if s.len() > 0 && is_whitespace(s.last()) {
        trim_end(s.drop_last())
    } else {
        s
    }
}

/// `s` without the white space at either end.
pub open spec fn trim(s: Seq<char>) -> Seq<char> {
    trim_end(trim_start(s))
}

/// Whether `url`, white space at its ends aside, is the root path `/`.
pub open spec fn is_root_url(url: Seq<char>) -> bool {
    trim(url) == seq!['/']
}

/// The number of characters of `s` before its first slash, or its length
/// where it holds none.
pub open spec fn segment_len(s: Seq<char>) -> nat
    decreases s.len(),
{
    if s.len() == 0 || s[0] == '/' {
        0
    } else {
        1 + segment_len(s.skip(1))
    }
}

/// The part of `s` before its first slash; all of `s` where it holds none.
pub open spec fn first_segment(s: Seq<char>) -> Seq<char> {
    s.take(segment_len(s) as int)
}

/// The path of the resource `arg` in the collection `name`:
/// `/name/arg`.
pub open spec fn path_of(name: Seq<char>, arg: Seq<char>) -> Seq<char> {
    seq!['/'] + name + seq!['/'] + arg
}

/// The argument of a path into the collection `name`: for a `url` that
/// begins with `/name/`, the segment that follows; for any other, nothing.
pub open spec fn path_argument(url: Seq<char>, name: Seq<char>) -> Option<Seq<char>> {
    let prefix = seq!['/'] + name + seq!['/'];
    if prefix.is_prefix_of(url) {
        Some(first_segment(url.skip(prefix.len() as int)))
    } else {
        None
    }
}

/// The name of the collection of stories in paths.
pub open spec fn item_name() -> Seq<char> {
    seq!['i', 't', 'e', 'm']
}

/// The name of the collection of comments in paths.
pub open spec fn comment_name() -> Seq<char> {
    seq!['c', 'o', 'm', 'm', 'e', 'n', 't']
}

/// The name of the collection of users in paths.
pub open spec fn user_name() -> Seq<char> {
    seq!['u', 's', 'e', 'r']
}

/// A segment ends at the first slash, or at the end of the text.
pub proof fn lemma_segment_len(s: Seq<char>, k: int)
    requires
        0 <= k <= s.len(),
        forall|j: int| 0 <= j < k ==> s[j] != '/',
        k == s.len() || s[k] == '/',
    ensures
        segment_len(s) == k,
    decreases k,
{
    if k > 0 {
        let rest = s.skip(1);
        assert forall|j: int| 0 <= j < k - 1 implies rest[j] != '/' by {
            assert(rest[j] == s[j + 1]);
        }
        lemma_segment_len(rest, k - 1);
    }
}

/// A text without a slash is its own first segment.
pub proof fn lemma_first_segment_whole(s: Seq<char>)
    requires
        forall|j: int| 0 <= j < s.len() ==> s[j] != '/',
    ensures
        first_segment(s) == s,
{
    lemma_segment_len(s, s.len() as int);
    assert(s.take(s.len() as int) =~= s);
}

/// The argument of the path `/name/arg` is the first segment of `arg`.
pub proof fn lemma_path_argument_of_path(name: Seq<char>, arg: Seq<char>)
    ensures
        path_argument(path_of(name, arg), name) == Some(first_segment(arg)),
{
    let prefix = seq!['/'] + name + seq!['/'];
    let url = path_of(name, arg);
    assert(url.subrange(0, prefix.len() as int) =~= prefix);
    assert(url.skip(prefix.len() as int) =~= arg);
}

/// Whether `c` has the Unicode property `White_Space`.
pub fn char_is_whitespace(c: char) -> (out: bool)
    ensures
        out == is_whitespace(c),
{
    let u: u32 = c as u32;
    (0x09 <= u && u <= 0x0d) || u == 0x20 || u == 0x85 || u == 0xa0 || u == 0x1680 || (0x2000 <= u
        && u <= 0x200a) || u == 0x2028 || u == 0x2029 || u == 0x202f || u == 0x205f || u == 0x3000
}

/// Whether `chars` begins with `prefix`.
pub fn has_prefix(chars: &Vec<char>, prefix: &Vec<char>) -> (out: bool)
    ensures
        out == prefix@.is_prefix_of(chars@),
{
    if prefix.len() > chars.len() {
        return false;
    }
    let mut i: usize = 0;
    while i < prefix.len()
        invariant
            i <= prefix.len() <= chars.len(),
            forall|j: int| 0 <= j < i ==> chars@[j] == prefix@[j],
        decreases prefix.len() - i,
    {
        if chars[i] != prefix[i] {
            assert(chars@.subrange(0, prefix@.len() as int)[i as int] != prefix@[i as int]);
            return false;
        }
        i = i + 1;
    }
    assert(chars@.subrange(0, prefix@.len() as int) =~= prefix@);
    true
}

/// The index at which the segment that starts at `start` ends.
pub fn segment_end(chars: &Vec<char>, start: usize) -> (end: usize)
    requires
        start <= chars.len(),
    ensures
        start <= end <= chars.len(),
        end - start == segment_len(chars@.skip(start as int)),
        chars@.subrange(start as int, end as int) == first_segment(chars@.skip(start as int)),
{
    let mut end: usize = start;
    while end < chars.len() && chars[end] != '/'
        invariant
            start <= end <= chars.len(),
            forall|j: int| start <= j < end ==> chars@[j] != '/',
        decreases chars.len() - end,
    {
        end = end + 1;
    }
    proof {
        let rest = chars@.skip(start as int);
        assert forall|j: int| 0 <= j < end - start implies rest[j] != '/' by {
            assert(rest[j] == chars@[start + j]);
        }
        lemma_segment_len(rest, end - start);
        assert(chars@.subrange(start as int, end as int) =~= rest.take(end - start));
    }
    end
}

/// `trim_start` drops exactly the leading run of white space.
pub proof fn lemma_trim_start(s: Seq<char>, k: int)
    requires
        0 <= k <= s.len(),
        forall|j: int| 0 <= j < k ==> is_whitespace(s[j]),
        k == s.len() || !is_whitespace(s[k]),
    ensures
        trim_start(s) == s.skip(k),
    decreases k,
{
    if k > 0 {
        let rest = s.skip(1);
        assert forall|j: int| 0 <= j < k - 1 implies is_whitespace(rest[j]) by {
            assert(rest[j] == s[j + 1]);
        }
        lemma_trim_start(rest, k - 1);
        assert(rest.skip(k - 1) =~= s.skip(k));
    } else {
        assert(s.skip(0) =~= s);
    }
}

/// `trim_end` drops exactly the trailing run of white space.
pub proof fn lemma_trim_end(s: Seq<char>, k: int)
    requires
        0 <= k <= s.len(),
        forall|j: int| k <= j < s.len() ==> is_whitespace(s[j]),
        k == 0 || !is_whitespace(s[k - 1]),
    ensures
        trim_end(s) == s.take(k),
    decreases s.len() - k,
{
    if k < s.len() {
        let rest = s.drop_last();
        lemma_trim_end(rest, k);
        assert(rest.take(k) =~= s.take(k));
    } else {
        assert(s.take(k) =~= s);
    }
}

/// Whether `chars`, white space at its ends aside, is the root path `/`.
pub fn chars_are_root(chars: &Vec<char>) -> (out: bool)
    ensures
        out == is_root_url(chars@),
{
    let mut first: usize = 0;
    while first < chars.len() && char_is_whitespace(chars[first])
        invariant
            first <= chars.len(),
            forall|j: int| 0 <= j < first ==> is_whitespace(chars@[j]),
        decreases chars.len() - first,
    {
        first = first + 1;
    }
    let mut end: usize = chars.len();
    while end > first && char_is_whitespace(chars[end - 1])
        invariant
            first <= end <= chars.len(),
            forall|j: int| end <= j < chars.len() ==> is_whitespace(chars@[j]),
        decreases end,
    {
        end = end - 1;
    }
    proof {
        let s = chars@;
        lemma_trim_start(s, first as int);
        let t = s.skip(first as int);
        assert forall|j: int| end - first <= j < t.len() implies is_whitespace(t[j]) by {
            assert(t[j] == s[first + j]);
        }
        if end > first {
            assert(t[end - first - 1] == s[end - 1]);
        }
        lemma_trim_end(t, end - first);
        assert(trim(s) == t.take(end - first));
        if end - first == 1 {
            assert(t.take(1)[0] == s[first as int]);
            if s[first as int] == '/' {
                assert(t.take(1) =~= seq!['/']);
            }
        }
    }
    end - first == 1 && chars[first] == '/'
}

/// Where the argument of a path into the collection `name` lies in `chars`.
pub fn path_argument_range(chars: &Vec<char>, name: &str) -> (out: Option<(usize, usize)>)
    ensures
        match out {
            Some((from, to)) => from <= to <= chars.len() && path_argument(chars@, name@) == Some(
                chars@.subrange(from as int, to as int),
            ),
            None => path_argument(chars@, name@) is None,
        },
{
    let mut prefix: Vec<char> = Vec::new();
    prefix.push('/');
    let mut name_chars = chars_of(name);
    prefix.append(&mut name_chars);
    prefix.push('/');
    assert(prefix@ =~= seq!['/'] + name@ + seq!['/']);
    if has_prefix(chars, &prefix) {
        let from = prefix.len();
        let to = segment_end(chars, from);
        Some((from, to))
    } else {
        None
    }
}

/// The path of the resource with the number `id` in the collection `name`.
pub fn numbered_path(name: &str, id: i64) -> (out: String)
    ensures
        out@ == path_of(name@, decimal(id as int)),
{
    let mut chars: Vec<char> = Vec::new();
    chars.push('/');
    let mut name_chars = chars_of(name);
    chars.append(&mut name_chars);
    chars.push('/');
    push_decimal(&mut chars, id);
    assert(chars@ =~= path_of(name@, decimal(id as int)));
    string_of(&chars)
}

/// The number in a path into the collection `name`, if `chars` is such a
/// path and its argument is a decimal integer.
pub fn numbered_path_id(chars: &Vec<char>, name: &str) -> (out: Option<i64>)
    ensures
        out == (match path_argument(chars@, name@) {
            Some(segment) => parse_i64_spec(segment),
            None => None,
        }),
{
    match path_argument_range(chars, name) {
        Some((from, to)) => parse_i64_in(chars, from, to),
        None => None,
    }
}

const ITEM: &'static str = "item";

const COMMENT: &'static str = "comment";

const USER: &'static str = "user";

impl StoryItem {
    /// The path of the story with the given id.
    pub open spec fn url_of(story_id: i64) -> Seq<char> {
        path_of(item_name(), decimal(story_id as int))
    }

    /// The story id that a path names, if it is the path of a story.
    pub open spec fn url_id(url: Seq<char>) -> Option<i64> {
        match path_argument(url, item_name()) {
            Some(segment) => parse_i64_spec(segment),
            None => None,
        }
    }

    /// Reads the story id from a path of the form `/item/{id}`; what follows
    /// a further slash is ignored.
    pub fn id_from_url(url: &str) -> (out: Option<i64>)
        ensures
            out == Self::url_id(url@),
    {
        proof {
            reveal_strlit("item");
            assert(ITEM@ =~= item_name());
        }
        numbered_path_id(&chars_of(url), ITEM)
    }

    /// The path of the story with the given id: `/item/{id}`.
    pub fn to_url(story_id: i64) -> (out: String)
        ensures
            out@ == Self::url_of(story_id),
    {
        proof {
            reveal_strlit("item");
            assert(ITEM@ =~= item_name());
        }
        numbered_path(ITEM, story_id)
    }
}

impl Comment {
    /// The path of the comment with the given id.
    pub open spec fn url_of(comment_id: i64) -> Seq<char> {
        path_of(comment_name(), decimal(comment_id as int))
    }

    /// The comment id that a path names, if it is the path of a comment.
    pub open spec fn url_id(url: Seq<char>) -> Option<i64> {
        match path_argument(url, comment_name()) {
            Some(segment) => parse_i64_spec(segment),
            None => None,
        }
    }

    /// Reads the comment id from a path of the form `/comment/{id}`; what
    /// follows a further slash is ignored.
    pub fn id_from_url(url: &str) -> (out: Option<i64>)
        ensures
            out == Self::url_id(url@),
    {
        proof {
            reveal_strlit("comment");
            assert(COMMENT@ =~= comment_name());
        }
        numbered_path_id(&chars_of(url), COMMENT)
    }

    /// The path of the comment with the given id: `/comment/{id}`.
    pub fn to_url(comment_id: i64) -> (out: String)
        ensures
            out@ == Self::url_of(comment_id),
    {
        proof {
            reveal_strlit("comment");
            assert(COMMENT@ =~= comment_name());
        }
        numbered_path(COMMENT, comment_id)
    }
}

impl UserData {
    /// The path of the user with the given name.
    pub open spec fn url_of(username: Seq<char>) -> Seq<char> {
        path_of(user_name(), username)
    }

    /// The user name that a path names, if it is the path of a user.
    pub open spec fn url_id(url: Seq<char>) -> Option<Seq<char>> {
        path_argument(url, user_name())
    }

    /// Reads the user name from a path of the form `/user/{name}`; what
    /// follows a further slash is ignored.
    pub fn id_from_url(url: &str) -> (out: Option<String>)
        ensures
            match out {
                Some(name) => Self::url_id(url@) == Some(name@),
                None => Self::url_id(url@) is None,
            },
    {
        proof {
            reveal_strlit("user");
            assert(USER@ =~= user_name());
        }
        let chars = chars_of(url);
        match path_argument_range(&chars, USER) {
            Some((from, to)) => {
                let mut name: Vec<char> = Vec::new();
                let mut i: usize = from;
                while i < to
                    invariant
                        from <= i <= to <= chars.len(),
                        name@ == chars@.subrange(from as int, i as int),
                    decreases to - i,
                {
                    name.push(chars[i]);
                    assert(chars@.subrange(from as int, i + 1) =~= chars@.subrange(
                        from as int,
                        i as int,
                    ).push(chars@[i as int]));
                    i = i + 1;
                }
                Some(string_of(&name))
            },
            None => None,
        }
    }

    /// The path of the user with the given name: `/user/{name}`.
    pub fn to_url(username: &str) -> (out: String)
        ensures
            out@ == Self::url_of(username@),
    {
        proof {
            reveal_strlit("user");
            reveal_strlit("/user/");
            assert(USER@ =~= user_name());
        }
        let out = String::from_str("/user/").concat(username);
        assert(out@ =~= Self::url_of(username@));
        out
    }
}


} // verus!
