//! Text payloads: UTF-8 validation and the comma-space separated tag list.

use vstd::prelude::*;
use vstd::string::StringExecFns;
use vstd::utf8::{decode_utf8, valid_utf8};

verus! {

/// The error of `String::from_utf8`, handed through without a look inside.
#[verifier::external_type_specification]
#[verifier::external_body]
pub struct ExFromUtf8Error(std::string::FromUtf8Error);

/// `String::from_utf8`: succeeds exactly on well-formed UTF-8 and then holds
/// the characters that the bytes encode.
#[verifier::external_body]
fn string_from_utf8(bytes: Vec<u8>) -> (r: Result<String, std::string::FromUtf8Error>)
    ensures
        r is Ok <==> valid_utf8(bytes@),
        r matches Ok(s) ==> s@ == decode_utf8(bytes@),
{
    String::from_utf8(bytes)
}

/// `String::push`: appends one character.
#[verifier::external_body]
fn string_push(s: &mut String, c: char)
    ensures
        final(s)@ == old(s)@.push(c),
{
    s.push(c)
}

/// Reads a decompressed text payload. Bytes that are not UTF-8 are refused.
pub fn text_from_utf8(bytes: Vec<u8>) -> (r: Option<String>)
    ensures
        r is Some <==> valid_utf8(bytes@),
        r matches Some(s) ==> s@ == decode_utf8(bytes@),
{
    match string_from_utf8(bytes) {
        Ok(s) => Some(s),
        Err(_) => None,
    }
}

/// The characters of `s`, one by one.
pub fn chars_of(s: &str) -> (v: Vec<char>)
    ensures
        v@ == s@,
{
    let mut v: Vec<char> = Vec::new();
    for c in it: s.chars()
        invariant
            it.seq() == s@,
            v@ == it.seq().take(it.index() as int),
    {
        v.push(c);
    }
    v
}

/// The string made of `chars`, built one character at a time, so that a
/// text is split into its tags in time linear in its length.
pub fn string_of(chars: &Vec<char>) -> (s: String)
    ensures
        s@ == chars@,
{
    let mut s = String::new();
    let mut i: usize = 0;
    while i < chars.len()
        invariant
            i <= chars@.len(),
            s@ == chars@.take(i as int),
        decreases chars@.len() - i,
    {
        string_push(&mut s, chars[i]);
        i = i + 1;
        assert(chars@.take(i as int) =~= chars@.take(i - 1).push(chars@[i - 1]));
    }
    assert(chars@.take(i as int) =~= chars@);
    s
}

/// What stands between two tags: a comma and a space.
pub open spec fn separator() -> Seq<char> {
    seq![',', ' ']
}

/// Whether a separator begins at position `i` of `s`.
pub open spec fn is_separator_at(s: Seq<char>, i: int) -> bool {
    0 <= i && i + 1 < s.len() && s[i] == ',' && s[i + 1] == ' '
}

/// Whether `s` holds a separator anywhere.
pub open spec fn has_separator(s: Seq<char>) -> bool {
    exists|i: int| is_separator_at(s, i)
}

/// Where the first separator of `s` begins; the length of `s` if it has none.
pub open spec fn first_separator(s: Seq<char>) -> int
    decreases s.len(),
{
    if s.len() < 2 {
        s.len() as int
    } else if is_separator_at(s, 0) {
        0
    } else {
        1 + first_separator(s.drop_first())
    }
}

/// The tags of a tags text: what stands before its first separator, then the
/// tags of what follows that separator. A text without separator is one tag,
/// the empty text included.
pub open spec fn split_tags(s: Seq<char>) -> Seq<Seq<char>>
    decreases s.len(),
{
    let at = first_separator(s);
    if 0 <= at && at + 2 <= s.len() {
        seq![s.take(at)] + split_tags(s.skip(at + 2))
    } else {
        seq![s]
    }
}

/// The tags text of a list of tags: the tags in order, a separator between
/// each two. No tags give the empty text.
pub open spec fn join_tags(tags: Seq<Seq<char>>) -> Seq<char>
    decreases tags.len(),
{
    if tags.len() == 0 {
        Seq::empty()
    } else if tags.len() == 1 {
        tags[0]
    } else {
        tags[0] + separator() + join_tags(tags.drop_first())
    }
}

/// The character sequences that a run of strings holds.
pub open spec fn strings_view(v: Seq<String>) -> Seq<Seq<char>> {
    v.map_values(|s: String| s@)
}

/// `first_separator` is the least position at which a separator begins.
pub proof fn lemma_first_separator(s: Seq<char>)
    ensures
        0 <= first_separator(s) <= s.len(),
        forall|j: int| 0 <= j < first_separator(s) ==> !is_separator_at(s, j),
        first_separator(s) < s.len() ==> is_separator_at(s, first_separator(s)),
        first_separator(s) == s.len() <==> !has_separator(s),
    decreases s.len(),
{
    if s.len() < 2 {
    } else if is_separator_at(s, 0) {
    } else {
        let t = s.drop_first();
        lemma_first_separator(t);
        assert forall|j: int| 0 <= j < first_separator(s) implies !is_separator_at(s, j) by {
            if j > 0 {
                assert(is_separator_at(t, j - 1) == is_separator_at(s, j));
            }
        }
        if first_separator(s) < s.len() {
            assert(is_separator_at(t, first_separator(t)));
        }
    }
    if first_separator(s) < s.len() {
        assert(is_separator_at(s, first_separator(s)));
    }
}

/// A position that no separator precedes, and that holds one unless it is
/// the end, is the first separator.
pub proof fn lemma_first_separator_is(s: Seq<char>, k: int)
    requires
        0 <= k <= s.len(),
        forall|j: int| 0 <= j < k ==> !is_separator_at(s, j),
        k < s.len() ==> is_separator_at(s, k),
    ensures
        first_separator(s) == k,
{
    lemma_first_separator(s);
}

/// Splitting yields at least one tag, and no tag holds a separator.
pub proof fn lemma_split_tags_clean(s: Seq<char>)
    ensures
        split_tags(s).len() >= 1,
        forall|i: int| 0 <= i < split_tags(s).len() ==> !has_separator(#[trigger] split_tags(s)[i]),
    decreases s.len(),
{
    lemma_first_separator(s);
    let at = first_separator(s);
    if at + 2 <= s.len() {
        let head = s.take(at);
        let rest = s.skip(at + 2);
        lemma_split_tags_clean(rest);
        assert forall|j: int| !is_separator_at(head, j) by {
            if is_separator_at(head, j) {
                assert(is_separator_at(s, j));
            }
        }
        assert forall|i: int| 0 <= i < split_tags(s).len() implies !has_separator(
            #[trigger] split_tags(s)[i],
        ) by {
            if i > 0 {
                assert(split_tags(s)[i] == split_tags(rest)[i - 1]);
            }
        }
    }
}

/// Joining the tags of a text gives the text back.
pub proof fn lemma_join_of_split(s: Seq<char>)
    ensures
        join_tags(split_tags(s)) == s,
    decreases s.len(),
{
    lemma_first_separator(s);
    let at = first_separator(s);
    if at + 2 <= s.len() {
        let rest = s.skip(at + 2);
        lemma_join_of_split(rest);
        lemma_split_tags_clean(rest);
        let tags = split_tags(s);
        assert(tags.drop_first() =~= split_tags(rest));
        assert(join_tags(tags) == s.take(at) + separator() + rest);
        assert(s.take(at) + separator() + rest =~= s);
    }
}

/// Splitting the text of a list of tags gives the list back, provided that
/// there is at least one tag and that no tag holds a separator.
pub proof fn lemma_split_of_join(tags: Seq<Seq<char>>)
    requires
        tags.len() >= 1,
        forall|i: int| 0 <= i < tags.len() ==> !has_separator(#[trigger] tags[i]),
    ensures
        split_tags(join_tags(tags)) == tags,
    decreases tags.len(),
{
    let s = join_tags(tags);
    let head = tags[0];
    if tags.len() == 1 {
        lemma_first_separator(head);
        assert(split_tags(s) =~= tags);
    } else {
        let rest = tags.drop_first();
        assert forall|i: int| 0 <= i < rest.len() implies !has_separator(#[trigger] rest[i]) by {
            assert(rest[i] == tags[i + 1]);
        }
        lemma_split_of_join(rest);
        let k = head.len() as int;
        assert forall|j: int| 0 <= j < k implies !is_separator_at(s, j) by {
            if is_separator_at(s, j) {
                if j + 1 < k {
                    assert(is_separator_at(head, j));
                } else {
                    assert(s[j + 1] == separator()[0]);
                }
            }
        }
        assert(s[k] == separator()[0]);
        assert(s[k + 1] == separator()[1]);
        lemma_first_separator_is(s, k);
        assert(s.take(k) =~= head);
        assert(s.skip(k + 2) =~= join_tags(rest));
        assert(split_tags(s) =~= tags);
    }
}

/// Adding a tag at the end adds a separator and the tag to the text.
pub proof fn lemma_join_tags_push(tags: Seq<Seq<char>>, tag: Seq<char>)
    requires
        tags.len() >= 1,
    ensures
        join_tags(tags.push(tag)) == join_tags(tags) + separator() + tag,
    decreases tags.len(),
{
    let more = tags.push(tag);
    if tags.len() == 1 {
        assert(more.drop_first() =~= seq![tag]);
        assert(join_tags(more.drop_first()) == tag);
    } else {
        lemma_join_tags_push(tags.drop_first(), tag);
        assert(more.drop_first() =~= tags.drop_first().push(tag));
        assert(join_tags(more) =~= join_tags(tags) + separator() + tag);
    }
}

/// Splits a tags text into its tags.
pub fn split_tag_list(text: &str) -> (tags: Vec<String>)
    ensures
        strings_view(tags@) == split_tags(text@),
{
    let chars = chars_of(text);
    let n = chars.len();
    let mut tags: Vec<String> = Vec::new();
    let mut current: Vec<char> = Vec::new();
    let ghost mut start: int = 0;
    let mut i: usize = 0;
    assert(strings_view(tags@) =~= Seq::empty());
    assert(chars@.skip(0) =~= chars@);
    while i < n
        invariant
            n == chars@.len(),
            chars@ == text@,
            0 <= start <= i <= n,
            current@ == chars@.subrange(start, i as int),
            forall|j: int| start <= j < i ==> !is_separator_at(chars@, j),
            split_tags(chars@) == strings_view(tags@) + split_tags(chars@.skip(start)),
        decreases n - i,
    {
        if i + 1 < n && chars[i] == ',' && chars[i + 1] == ' ' {
            proof {
                let tail = chars@.skip(start);
                assert forall|j: int| 0 <= j < i - start implies !is_separator_at(tail, j) by {
                    assert(is_separator_at(tail, j) == is_separator_at(chars@, start + j));
                }
                assert(is_separator_at(tail, i - start));
                lemma_first_separator_is(tail, i - start);
                assert(tail.take(i - start) =~= current@);
                assert(tail.skip(i - start + 2) =~= chars@.skip(i + 2));
            }
            let tag = string_of(&current);
            proof {
                assert(strings_view(tags@.push(tag)) =~= strings_view(tags@).push(current@));
                assert(strings_view(tags@).push(current@) + split_tags(chars@.skip(i + 2))
                    =~= strings_view(tags@) + (seq![current@] + split_tags(chars@.skip(i + 2))));
            }
            tags.push(tag);
            current = Vec::new();
            i = i + 2;
            proof {
                start = i as int;
                assert(current@ =~= chars@.subrange(start, i as int));
            }
        } else {
            current.push(chars[i]);
            i = i + 1;
            assert(current@ =~= chars@.subrange(start, i as int));
        }
    }
    proof {
        let tail = chars@.skip(start);
        assert forall|j: int| 0 <= j < tail.len() implies !is_separator_at(tail, j) by {
            assert(is_separator_at(tail, j) == is_separator_at(chars@, start + j));
        }
        lemma_first_separator_is(tail, tail.len() as int);
        assert(tail =~= current@);
    }
    let tag = string_of(&current);
    proof {
        assert(strings_view(tags@.push(tag)) =~= strings_view(tags@).push(current@));
        assert(strings_view(tags@).push(current@) =~= strings_view(tags@) + seq![current@]);
    }
    tags.push(tag);
    tags
}

/// Joins tags into a tags text.
pub fn join_tag_list(tags: &Vec<String>) -> (text: String)
    ensures
        text@ == join_tags(strings_view(tags@)),
{
    let ghost all = strings_view(tags@);
    let mut text = String::new();
    let mut i: usize = 0;
    assert(all.take(0) =~= Seq::empty());
    while i < tags.len()
        invariant
            i <= tags@.len(),
            all == strings_view(tags@),
            text@ == join_tags(all.take(i as int)),
        decreases tags@.len() - i,
    {
        proof {
            reveal_strlit(", ");
            assert(", "@ =~= separator());
            assert(all.take(i + 1) =~= all.take(i as int).push(all[i as int]));
            if i > 0 {
                lemma_join_tags_push(all.take(i as int), all[i as int]);
            } else {
                assert(all.take(1)[0] == all[0]);
            }
        }
        if i > 0 {
            text.append(", ");
        }
        text.append(tags[i].as_str());
        i = i + 1;
    }
    assert(all.take(i as int) =~= all);
    text
}

} // verus!
