//! Section headers and the names under which their sections are filed.

use vstd::prelude::*;
use vstd::string::StrSliceExecFns;

verus! {

/// The characters that separate the tokens of a section header: the ASCII
/// whitespace (space, tab, line feed, form feed, carriage return).
pub open spec fn is_separator(c: char) -> bool {
    c == ' ' || c == '\t' || c == '\n' || c == '\x0c' || c == '\r'
}

/// The length of `header` without the separators at its end.
pub open spec fn trimmed_len(header: Seq<char>) -> int
    decreases header.len(),
{
    if header.len() == 0 {
        0
    } else if !is_separator(header.last()) {
        header.len() as int
    } else {
        trimmed_len(header.drop_last())
    }
}

/// Where the run of token characters begins that ends before position `end`.
pub open spec fn token_start(header: Seq<char>, end: int) -> int
    decreases end,
{
    if end <= 0 {
        0
    } else if is_separator(header[end - 1]) {
        end
    } else {
        token_start(header, end - 1)
    }
}

/// The name under which a section is filed.
///
/// A header of two or more tokens, such as `profile dev`, is filed under its
/// last token. Any other header is filed as it stands.
pub open spec fn canonical_name(header: Seq<char>) -> Seq<char> {
    let end = trimmed_len(header);
    let start = token_start(header, end);
    if trimmed_len(header.take(start)) > 0 {
        header.subrange(start, end)
    } else {
        header
    }
}

/// Whether `text` holds no separator.
pub open spec fn is_unbroken(text: Seq<char>) -> bool {
    forall|i: int| 0 <= i < text.len() ==> !is_separator(#[trigger] text[i])
}

/// Whether `text` holds separators only.
pub open spec fn is_blank(text: Seq<char>) -> bool {
    forall|i: int| 0 <= i < text.len() ==> is_separator(#[trigger] text[i])
}

/// Everything from `trimmed_len` on is a separator, and what stands before it
/// ends with a token character.
pub proof fn lemma_trimmed_len(header: Seq<char>)
    ensures
        0 <= trimmed_len(header) <= header.len(),
        is_blank(header.skip(trimmed_len(header))),
        trimmed_len(header) > 0 ==> !is_separator(header[trimmed_len(header) - 1]),
        trimmed_len(header) == 0 <==> is_blank(header),
    decreases header.len(),
{
    if header.len() > 0 {
        if is_separator(header.last()) {
            let shorter = header.drop_last();
            lemma_trimmed_len(shorter);
            let t = trimmed_len(shorter);
            assert forall|i: int| 0 <= i < header.skip(t).len() implies is_separator(
                #[trigger] header.skip(t)[i],
            ) by {
                if t + i < shorter.len() {
                    assert(shorter.skip(t)[i] == header[t + i]);
                }
            }
            if is_blank(shorter) {
                assert forall|i: int| 0 <= i < header.len() implies is_separator(
                    #[trigger] header[i],
                ) by {
                    if i < shorter.len() {
                        assert(shorter[i] == header[i]);
                    }
                }
            }
            if is_blank(header) {
                assert forall|i: int| 0 <= i < shorter.len() implies is_separator(
                    #[trigger] shorter[i],
                ) by {
                    assert(shorter[i] == header[i]);
                }
            }
        } else {
            assert(header[header.len() - 1] == header.last());
        }
    }
}

/// The characters from `token_start` to `end` hold no separator, and a
/// separator stands before them unless they begin the header.
pub proof fn lemma_token_start(header: Seq<char>, end: int)
    requires
        0 <= end <= header.len(),
    ensures
        0 <= token_start(header, end) <= end,
        is_unbroken(header.subrange(token_start(header, end), end)),
        token_start(header, end) > 0 ==> is_separator(header[token_start(header, end) - 1]),
    decreases end,
{
    if end > 0 && !is_separator(header[end - 1]) {
        lemma_token_start(header, end - 1);
        let start = token_start(header, end - 1);
        assert forall|i: int| 0 <= i < end - start implies !is_separator(
            #[trigger] header.subrange(start, end)[i],
        ) by {
            if i < end - 1 - start {
                assert(header.subrange(start, end - 1)[i] == header[start + i]);
            }
        }
    }
}

/// Whether a separator at `j` parts a token character at `i` from one at `k`.
pub open spec fn parts_tokens(header: Seq<char>, i: int, j: int, k: int) -> bool {
    &&& 0 <= i < j < k < header.len()
    &&& !is_separator(header[i])
    &&& is_separator(header[j])
    &&& !is_separator(header[k])
}

/// Whether `header` holds two tokens or more.
pub open spec fn has_several_tokens(header: Seq<char>) -> bool {
    exists|i: int, j: int, k: int| parts_tokens(header, i, j, k)
}

/// Whether the characters of `header` from `start` to `end` are its last
/// token, and not its only one.
pub open spec fn is_last_of_several(header: Seq<char>, start: int, end: int) -> bool {
    &&& 0 < start < end <= header.len()
    &&& is_unbroken(header.subrange(start, end))
    &&& is_blank(header.skip(end))
    &&& is_separator(header[start - 1])
    &&& !is_blank(header.take(start))
}

/// A header of two or more tokens is filed under its last token, any other
/// header as it stands.
pub proof fn law_canonical_name_is_last_token(header: Seq<char>)
    ensures
        !has_several_tokens(header) ==> canonical_name(header) == header,
        has_several_tokens(header) ==> exists|start: int, end: int|
            #[trigger] is_last_of_several(header, start, end) && canonical_name(header)
                == header.subrange(start, end),
{
    let end = trimmed_len(header);
    let start = token_start(header, end);
    lemma_trimmed_len(header);
    lemma_token_start(header, end);
    lemma_trimmed_len(header.take(start));
    let token = header.subrange(start, end);
    if trimmed_len(header.take(start)) > 0 {
        let before = trimmed_len(header.take(start));
        assert(start < end) by {
            if start == end {
                assert(!is_separator(header[end - 1]));
            }
        }
        assert(header.take(start)[before - 1] == header[before - 1]);
        assert(token[0] == header[start]);
        assert(parts_tokens(header, before - 1, start - 1, start));
        assert(is_last_of_several(header, start, end));
    } else {
        assert forall|i: int, j: int, k: int| !parts_tokens(header, i, j, k) by {
            if parts_tokens(header, i, j, k) {
                if k >= end {
                    assert(header.skip(end)[k - end] == header[k]);
                }
                if k < start {
                    assert(header.take(start)[k] == header[k]);
                }
                if j >= start {
                    assert(token[j - start] == header[j]);
                }
                assert(header.take(start)[i] == header[i]);
            }
        }
    }
}

/// A header of a keyword, a space and a name is filed under the name, and a
/// header that is a name alone is filed under that name.
pub proof fn law_keyword_is_stripped(keyword: Seq<char>, name: Seq<char>)
    requires
        keyword.len() > 0,
        name.len() > 0,
        is_unbroken(keyword),
        is_unbroken(name),
    ensures
        canonical_name(keyword + seq![' '] + name) == name,
        canonical_name(name) == name,
{
    let header = keyword + seq![' '] + name;
    let k = keyword.len() as int;
    let n = header.len() as int;
    assert(header.last() == name.last());
    assert(!is_separator(name[name.len() - 1]));
    assert(trimmed_len(header) == n);
    lemma_token_start(header, n);
    let start = token_start(header, n);
    assert(header[k] == ' ');
    assert(start > k) by {
        if start <= k {
            assert(header.subrange(start, n)[k - start] == header[k]);
        }
    }
    assert(start == k + 1) by {
        if start > k + 1 {
            assert(header[start - 1] == name[start - 1 - k - 1]);
        }
    }
    lemma_trimmed_len(header.take(start));
    assert(!is_blank(header.take(start))) by {
        assert(header.take(start)[0] == keyword[0]);
    }
    assert(header.subrange(start, n) =~= name);

    let alone = trimmed_len(name);
    assert(alone == name.len());
    lemma_token_start(name, alone);
    let begin = token_start(name, alone);
    assert(begin == 0) by {
        if begin > 0 {
            assert(!is_separator(name[begin - 1]));
        }
    }
    assert(name.take(0) =~= Seq::<char>::empty());
}

proof fn lemma_trimmed_len_step(header: Seq<char>, end: int)
    requires
        0 < end <= header.len(),
    ensures
        trimmed_len(header.take(end)) == if is_separator(header[end - 1]) {
            trimmed_len(header.take(end - 1))
        } else {
            end
        },
{
    assert(header.take(end).drop_last() =~= header.take(end - 1));
    assert(header.take(end).last() == header[end - 1]);
}

/// Whether `c` separates the tokens of a section header.
fn separates(c: char) -> (result: bool)
    ensures
        result == is_separator(c),
{
    c == ' ' || c == '\t' || c == '\n' || c == '\x0c' || c == '\r'
}

/// The canonical name of the section with the header `header`.
pub fn profile_name(header: &str) -> (name: String)
    ensures
        name@ == canonical_name(header@),
{
    let len = header.unicode_len();
    let mut end = len;
    assert(header@.take(len as int) =~= header@);
    while end > 0 && separates(header.get_char(end - 1))
        invariant
            end <= len == header@.len(),
            trimmed_len(header@.take(end as int)) == trimmed_len(header@),
        decreases end,
    {
        proof {
            lemma_trimmed_len_step(header@, end as int);
        }
        end -= 1;
    }
    proof {
        if end > 0 {
            lemma_trimmed_len_step(header@, end as int);
        }
    }
    let mut start = end;
    while start > 0 && !separates(header.get_char(start - 1))
        invariant
            start <= end <= len == header@.len(),
            token_start(header@, start as int) == token_start(header@, end as int),
        decreases start,
    {
        start -= 1;
    }
    let mut probe = start;
    while probe > 0 && separates(header.get_char(probe - 1))
        invariant
            probe <= start <= len == header@.len(),
            trimmed_len(header@.take(probe as int)) == trimmed_len(header@.take(start as int)),
        decreases probe,
    {
        proof {
            lemma_trimmed_len_step(header@, probe as int);
            assert(header@.take(start as int).take(probe as int) =~= header@.take(probe as int));
        }
        probe -= 1;
    }
    proof {
        if probe > 0 {
            lemma_trimmed_len_step(header@, probe as int);
        }
    }
    if probe > 0 {
        header.substring_char(start, end).to_owned()
    } else {
        header.to_owned()
    }
}

} // verus!
