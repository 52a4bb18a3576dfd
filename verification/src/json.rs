//! JSON objects whose members are strings.
use vstd::prelude::*;
use vstd::utf8::encode_utf8;

use crate::boundary;

verus! {

/// A hexadecimal digit in lower case.
pub open spec fn hex_digit(d: int) -> char {
    if d < 10 {
        (48 + d) as char
    } else {
        (97 + d - 10) as char
    }
}

/// How a character is written inside a JSON string.
pub open spec fn escaped(c: char) -> Seq<char> {
    if c == '"' || c == '\\' {
        seq!['\\', c]
    } else if c as u32 == 8 {
        seq!['\\', 'b']
    } else if c as u32 == 9 {
        seq!['\\', 't']
    } else if c as u32 == 10 {
        seq!['\\', 'n']
    } else if c as u32 == 12 {
        seq!['\\', 'f']
    } else if c as u32 == 13 {
        seq!['\\', 'r']
    } else if (c as u32) < 32 {
        seq!['\\', 'u', '0', '0', hex_digit(c as int / 16), hex_digit(c as int % 16)]
    } else {
        seq![c]
    }
}

/// How the characters of a text are written inside a JSON string.
pub open spec fn all_escaped(s: Seq<char>) -> Seq<char>
    decreases s.len(),
{
    if s.len() == 0 {
        Seq::empty()
    } else {
        all_escaped(s.drop_last()) + escaped(s.last())
    }
}

/// A JSON string.
pub open spec fn quoted(s: Seq<char>) -> Seq<char> {
    seq!['"'] + all_escaped(s) + seq!['"']
}

/// The members of an object, with commas between them.
pub open spec fn members_text(members: Seq<(Seq<char>, Seq<char>)>) -> Seq<char>
    decreases members.len(),
{
    if members.len() == 0 {
        Seq::empty()
    } else {
        let front = members_text(members.drop_last());
        let member = quoted(members.last().0) + seq![':'] + quoted(members.last().1);
        if members.len() == 1 {
            member
        } else {
            front + seq![','] + member
        }
    }
}

/// A JSON object without white space.
pub open spec fn object_text(members: Seq<(Seq<char>, Seq<char>)>) -> Seq<char> {
    seq!['{'] + members_text(members) + seq!['}']
}

pub open spec fn member_views(members: Seq<(String, String)>) -> Seq<(Seq<char>, Seq<char>)> {
    Seq::new(members.len(), |i: int| (members[i].0@, members[i].1@))
}

/// The order of texts: by the first character that differs, and a text after
/// its own prefixes.
pub open spec fn comes_before(a: Seq<char>, b: Seq<char>) -> bool {
    exists|i: int|
        {
            &&& 0 <= i <= a.len()
            &&& i < b.len()
            &&& a.take(i) == b.take(i)
            &&& i == a.len() || #[trigger] a[i] < b[i]
        }
}

/// Members in the order of their keys, no key twice.
pub open spec fn ascending(members: Seq<(Seq<char>, Seq<char>)>) -> bool {
    forall|i: int, j: int|
        0 <= i < j < members.len() ==> comes_before(#[trigger] members[i].0, #[trigger] members[j].0)
}

/// The body that asks to shorten a URL.
pub open spec fn shorten_body(url: Seq<char>) -> Seq<char> {
    object_text(seq![("url"@, url)])
}

/// The body that reports a stored URL.
pub open spec fn created_body(code: Seq<char>, short_url: Seq<char>, long_url: Seq<char>) -> Seq<
    char,
> {
    object_text(seq![("code"@, code), ("long_url"@, long_url), ("short_url"@, short_url)])
}

/// Writes the body that asks to shorten a URL. Reading it gives the URL back.
pub fn write_shorten_body(url: &str) -> (res: String)
    ensures
        res@ == shorten_body(url@),
        boundary::json_member(encode_utf8(res@), "url"@) == Some(Some(url@)),
{
    let mut members: Vec<(String, String)> = Vec::new();
    members.push(("url".to_owned(), url.to_owned()));
    let ghost views = member_views(members@);
    assert(views =~= seq![("url"@, url@)]);
    let res = boundary::json_object(&members);
    assert(views[0] == ("url"@, url@));
    res
}

/// Writes the body that reports a stored URL. Reading it gives each part back.
pub fn write_created_body(code: &str, short_url: &str, long_url: &str) -> (res: String)
    ensures
        res@ == created_body(code@, short_url@, long_url@),
        boundary::json_member(encode_utf8(res@), "code"@) == Some(Some(code@)),
        boundary::json_member(encode_utf8(res@), "long_url"@) == Some(Some(long_url@)),
        boundary::json_member(encode_utf8(res@), "short_url"@) == Some(Some(short_url@)),
{
    let mut members: Vec<(String, String)> = Vec::new();
    members.push(("code".to_owned(), code.to_owned()));
    members.push(("long_url".to_owned(), long_url.to_owned()));
    members.push(("short_url".to_owned(), short_url.to_owned()));
    let ghost views = member_views(members@);
    proof {
        assert(views =~= seq![
            ("code"@, code@),
            ("long_url"@, long_url@),
            ("short_url"@, short_url@),
        ]);
        reveal_strlit("code");
        reveal_strlit("long_url");
        reveal_strlit("short_url");
        assert("code"@.take(0) =~= "long_url"@.take(0));
        assert("code"@.take(0) =~= "short_url"@.take(0));
        assert("long_url"@.take(0) =~= "short_url"@.take(0));
        assert("code"@[0] < "long_url"@[0]);
        assert("long_url"@[0] < "short_url"@[0]);
        assert(comes_before("code"@, "long_url"@));
        assert(comes_before("code"@, "short_url"@));
        assert(comes_before("long_url"@, "short_url"@));
    }
    let res = boundary::json_object(&members);
    proof {
        assert(boundary::json_member(encode_utf8(res@), member_views(members@)[0].0) == Some(
            Some(code@),
        ));
        assert(boundary::json_member(encode_utf8(res@), member_views(members@)[1].0) == Some(
            Some(long_url@),
        ));
        assert(boundary::json_member(encode_utf8(res@), member_views(members@)[2].0) == Some(
            Some(short_url@),
        ));
    }
    res
}

/// Text of visible characters without quotation marks and backslashes is written
/// as it is, between quotation marks.
pub proof fn law_plain_text_is_kept(s: Seq<char>)
    requires
        forall|i: int|
            0 <= i < s.len() ==> #[trigger] s[i] != '"' && s[i] != '\\' && s[i] as u32 >= 32,
    ensures
        quoted(s) == "\""@ + s + "\""@,
{
    lemma_plain(s);
    reveal_strlit("\"");
    assert(quoted(s) =~= "\""@ + s + "\""@);
}

proof fn lemma_plain(s: Seq<char>)
    requires
        forall|i: int|
            0 <= i < s.len() ==> #[trigger] s[i] != '"' && s[i] != '\\' && s[i] as u32 >= 32,
    ensures
        all_escaped(s) == s,
    decreases s.len(),
{
    if s.len() > 0 {
        let front = s.drop_last();
        assert forall|i: int| 0 <= i < front.len() implies #[trigger] front[i] != '"' && front[i]
            != '\\' && front[i] as u32 >= 32 by {
            assert(front[i] == s[i]);
        }
        lemma_plain(front);
        assert(s[s.len() - 1] == s.last());
        assert(s =~= front + escaped(s.last()));
    }
}

/// The bodies hold their members under these names, in this order.
pub proof fn law_bodies(code: Seq<char>, short_url: Seq<char>, long_url: Seq<char>)
    ensures
        shorten_body(long_url) == "{\"url\":"@ + quoted(long_url) + "}"@,
        created_body(code, short_url, long_url) == "{\"code\":"@ + quoted(code)
            + ",\"long_url\":"@ + quoted(long_url) + ",\"short_url\":"@ + quoted(short_url) + "}"@,
{
    reveal_strlit("{\"url\":");
    reveal_strlit("}");
    reveal_strlit("{\"code\":");
    reveal_strlit(",\"long_url\":");
    reveal_strlit(",\"short_url\":");
    reveal_strlit("url");
    reveal_strlit("code");
    reveal_strlit("long_url");
    reveal_strlit("short_url");
    lemma_plain("url"@);
    lemma_plain("code"@);
    lemma_plain("long_url"@);
    lemma_plain("short_url"@);
    let one = seq![("url"@, long_url)];
    assert(one.drop_last() =~= Seq::empty());
    assert(shorten_body(long_url) =~= "{\"url\":"@ + quoted(long_url) + "}"@);
    let three = seq![("code"@, code), ("long_url"@, long_url), ("short_url"@, short_url)];
    let two = seq![("code"@, code), ("long_url"@, long_url)];
    let first = seq![("code"@, code)];
    assert(three.drop_last() =~= two);
    assert(two.drop_last() =~= first);
    assert(first.drop_last() =~= Seq::empty());
    assert(members_text(first) =~= quoted("code"@) + seq![':'] + quoted(code));
    assert(members_text(two) =~= members_text(first) + seq![','] + (quoted("long_url"@) + seq![':']
        + quoted(long_url)));
    assert(members_text(three) =~= members_text(two) + seq![','] + (quoted("short_url"@)
        + seq![':'] + quoted(short_url)));
    assert(created_body(code, short_url, long_url) =~= "{\"code\":"@ + quoted(code)
        + ",\"long_url\":"@ + quoted(long_url) + ",\"short_url\":"@ + quoted(short_url) + "}"@);
}

/// A character more is written behind the others: quotation marks, backslashes
/// and five control characters behind a backslash, the other control characters
/// by their number in hexadecimal, and any other as it is.
pub proof fn law_escapes(s: Seq<char>, c: char)
    ensures
        quoted(s.push(c)) == quoted(s).drop_last() + escaped(c) + seq!['"'],
        escaped('"') == "\\\""@,
        escaped('\\') == "\\\\"@,
        escaped('\n') == "\\n"@,
        escaped('\r') == "\\r"@,
        escaped('\t') == "\\t"@,
        c as u32 == 8 ==> escaped(c) == "\\b"@,
        c as u32 == 12 ==> escaped(c) == "\\f"@,
        (c as u32) < 32 && c as u32 != 8 && c as u32 != 9 && c as u32 != 10 && c as u32 != 12 && c
            as u32 != 13 ==> escaped(c) == "\\u00"@ + seq![
            "0123456789abcdef"@[c as int / 16],
            "0123456789abcdef"@[c as int % 16],
        ],
        c as u32 >= 32 && c != '"' && c != '\\' ==> escaped(c) == seq![c],
{
    reveal_strlit("\\\"");
    reveal_strlit("\\\\");
    reveal_strlit("\\n");
    reveal_strlit("\\r");
    reveal_strlit("\\t");
    reveal_strlit("\\b");
    reveal_strlit("\\f");
    reveal_strlit("\\u00");
    reveal_strlit("0123456789abcdef");
    assert(s.push(c).drop_last() =~= s);
    assert(quoted(s).drop_last() =~= seq!['"'] + all_escaped(s));
}

} // verus!
