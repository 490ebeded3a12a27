//! JSON text.
use vstd::prelude::*;

use crate::ip;
use crate::request;
use crate::request::Pair;
use crate::text;
use crate::text::push_text;

verus! {

/// What stands for a character inside a JSON string.
pub open spec fn escaped_char(c: char) -> Seq<char> {
    if c == '"' {
        seq!['\\', '"']
    } else if c == '\\' {
        seq!['\\', '\\']
    } else if c == '\n' {
        seq!['\\', 'n']
    } else if c == '\r' {
        seq!['\\', 'r']
    } else if c == '\t' {
        seq!['\\', 't']
    } else if c as u32 == 8 {
        seq!['\\', 'b']
    } else if c as u32 == 12 {
        seq!['\\', 'f']
    } else if (c as u32) < 0x20 {
        seq![
            '\\',
            'u',
            '0',
            '0',
            ip::hex_char(c as nat / 16),
            ip::hex_char(c as nat % 16),
        ]
    } else {
        seq![c]
    }
}

/// What stands for a text inside a JSON string.
pub open spec fn escaped(s: Seq<char>) -> Seq<char>
    decreases s.len(),
{
    if s.len() == 0 {
        Seq::empty()
    } else {
        escaped(s.drop_last()) + escaped_char(s.last())
    }
}

/// A text as a JSON string.
pub open spec fn quoted(s: Seq<char>) -> Seq<char> {
    seq!['"'] + escaped(s) + seq!['"']
}

/// `serde_json::to_string` on a text: the text in double quotes, with quotes,
/// backslashes and control characters escaped. It cannot fail on a text.
#[verifier::external_body]
pub(crate) fn json_string(s: &str) -> (r: String)
    ensures
        r@ == quoted(s@),
{
    serde_json::to_string(s).expect("a text serializes")
}

/// A text, or nothing, in JSON.
pub open spec fn optional(o: Option<Seq<char>>) -> Seq<char> {
    match o {
        Some(s) => quoted(s),
        None => "null"@,
    }
}

/// Texts in JSON, with commas between them.
pub open spec fn list_items(items: Seq<Seq<char>>) -> Seq<char>
    decreases items.len(),
{
    if items.len() == 0 {
        Seq::empty()
    } else if items.len() == 1 {
        quoted(items[0])
    } else {
        list_items(items.drop_last()) + ","@ + quoted(items.last())
    }
}

/// A list of texts in JSON.
pub open spec fn list(items: Seq<Seq<char>>) -> Seq<char> {
    "["@ + list_items(items) + "]"@
}

/// Members of an object in JSON, with commas between them.
pub open spec fn object_members(members: Seq<Pair>) -> Seq<char>
    decreases members.len(),
{
    if members.len() == 0 {
        Seq::empty()
    } else {
        let member = quoted(members.last().0) + ":"@ + quoted(members.last().1);
        if members.len() == 1 {
            member
        } else {
            object_members(members.drop_last()) + ","@ + member
        }
    }
}

/// An object whose members are texts, in JSON.
pub open spec fn object(members: Seq<Pair>) -> Seq<char> {
    "{"@ + object_members(members) + "}"@
}

/// Appends a text, or nothing, in JSON.
pub fn push_optional(out: &mut String, o: &Option<String>)
    ensures
        final(out)@ == old(out)@ + optional(
            match *o {
                Some(s) => Some(s@),
                None => None,
            },
        ),
{
    match o {
        Some(s) => push_text(out, &json_string(s)),
        None => push_text(out, "null"),
    }
}

/// Appends a list of texts in JSON.
pub fn push_list(out: &mut String, items: &Vec<String>)
    ensures
        final(out)@ == old(out)@ + list(text::texts(items@)),
{
    let ghost before = out@;
    let ghost all = text::texts(items@);
    push_text(out, "[");
    let ghost front = out@;
    let mut i: usize = 0;
    assert(front =~= front + list_items(all.take(0)));
    while i < items.len()
        invariant
            i <= items@.len(),
            all == text::texts(items@),
            out@ == front + list_items(all.take(i as int)),
        decreases items@.len() - i,
    {
        let ghost done = list_items(all.take(i as int));
        assert(all.take(i + 1).drop_last() == all.take(i as int));
        assert(all.take(i + 1).last() == items@[i as int]@);
        if i > 0 {
            push_text(out, ",");
        }
        push_text(out, &json_string(&items[i]));
        assert(out@ =~= front + list_items(all.take(i + 1)));
        i = i + 1;
    }
    assert(all.take(all.len() as int) == all);
    push_text(out, "]");
    assert(out@ =~= before + list(all));
}

/// Appends an object whose members are texts, in JSON.
pub fn push_object(out: &mut String, members: &Vec<(String, String)>)
    ensures
        final(out)@ == old(out)@ + object(request::pairs(members@)),
{
    let ghost before = out@;
    let ghost all = request::pairs(members@);
    push_text(out, "{");
    let ghost front = out@;
    let mut i: usize = 0;
    assert(front =~= front + object_members(all.take(0)));
    while i < members.len()
        invariant
            i <= members@.len(),
            all == request::pairs(members@),
            out@ == front + object_members(all.take(i as int)),
        decreases members@.len() - i,
    {
        assert(all.take(i + 1).drop_last() == all.take(i as int));
        assert(all.take(i + 1).last() == (members@[i as int].0@, members@[i as int].1@));
        if i > 0 {
            push_text(out, ",");
        }
        push_text(out, &json_string(&members[i].0));
        push_text(out, ":");
        push_text(out, &json_string(&members[i].1));
        assert(out@ =~= front + object_members(all.take(i + 1)));
        i = i + 1;
    }
    assert(all.take(all.len() as int) == all);
    push_text(out, "}");
    assert(out@ =~= before + object(all));
}

// ---------------------------------------------------------------------------
// One line
// ---------------------------------------------------------------------------
/// No character of the text breaks a line or otherwise controls a terminal.
pub open spec fn is_one_line(s: Seq<char>) -> bool {
    forall|i: int| 0 <= i < s.len() ==> (#[trigger] s[i]) as u32 >= 0x20
}

pub proof fn lemma_one_line_join(a: Seq<char>, b: Seq<char>)
    requires
        is_one_line(a),
        is_one_line(b),
    ensures
        is_one_line(a + b),
{
    assert forall|i: int| 0 <= i < (a + b).len() implies (#[trigger] (a + b)[i]) as u32 >= 0x20 by {
        if i < a.len() {
            assert((a + b)[i] == a[i]);
        } else {
            assert((a + b)[i] == b[i - a.len()]);
        }
    }
}

/// Whatever a text holds, as a JSON string it stays on one line.
pub proof fn law_json_string_is_one_line(s: Seq<char>)
    ensures
        is_one_line(quoted(s)),
    decreases s.len(),
{
    lemma_escaped_one_line(s);
    assert(is_one_line(seq!['"']));
    lemma_one_line_join(seq!['"'], escaped(s));
    lemma_one_line_join(seq!['"'] + escaped(s), seq!['"']);
}

proof fn lemma_escaped_char_one_line(c: char)
    ensures
        is_one_line(escaped_char(c)),
{
    let e = escaped_char(c);
    assert forall|i: int| 0 <= i < e.len() implies (#[trigger] e[i]) as u32 >= 0x20 by {
        if (c as u32) < 0x20 {
            let high = c as nat / 16;
            let low = c as nat % 16;
            assert(high < 16 && low < 16);
            assert(ip::hex_char(high) as u32 >= 0x20);
            assert(ip::hex_char(low) as u32 >= 0x20);
        }
    }
}

proof fn lemma_escaped_one_line(s: Seq<char>)
    ensures
        is_one_line(escaped(s)),
    decreases s.len(),
{
    if s.len() > 0 {
        lemma_escaped_one_line(s.drop_last());
        lemma_escaped_char_one_line(s.last());
        lemma_one_line_join(escaped(s.drop_last()), escaped_char(s.last()));
    }
}

pub proof fn lemma_list_one_line(items: Seq<Seq<char>>)
    ensures
        is_one_line(list(items)),
{
    reveal_strlit("[");
    reveal_strlit("]");
    lemma_list_items_one_line(items);
    lemma_one_line_join("["@, list_items(items));
    lemma_one_line_join("["@ + list_items(items), "]"@);
}

proof fn lemma_list_items_one_line(items: Seq<Seq<char>>)
    ensures
        is_one_line(list_items(items)),
    decreases items.len(),
{
    reveal_strlit(",");
    if items.len() > 0 {
        law_json_string_is_one_line(items[0]);
        law_json_string_is_one_line(items.last());
        lemma_list_items_one_line(items.drop_last());
        lemma_one_line_join(list_items(items.drop_last()), ","@);
        lemma_one_line_join(list_items(items.drop_last()) + ","@, quoted(items.last()));
    }
}

pub proof fn lemma_object_one_line(members: Seq<Pair>)
    ensures
        is_one_line(object(members)),
{
    reveal_strlit("{");
    reveal_strlit("}");
    lemma_object_members_one_line(members);
    lemma_one_line_join("{"@, object_members(members));
    lemma_one_line_join("{"@ + object_members(members), "}"@);
}

proof fn lemma_object_members_one_line(members: Seq<Pair>)
    ensures
        is_one_line(object_members(members)),
    decreases members.len(),
{
    reveal_strlit(",");
    reveal_strlit(":");
    if members.len() > 0 {
        let k = quoted(members.last().0);
        let v = quoted(members.last().1);
        law_json_string_is_one_line(members.last().0);
        law_json_string_is_one_line(members.last().1);
        lemma_one_line_join(k, ":"@);
        lemma_one_line_join(k + ":"@, v);
        lemma_object_members_one_line(members.drop_last());
        lemma_one_line_join(object_members(members.drop_last()), ","@);
        lemma_one_line_join(object_members(members.drop_last()) + ","@, k + ":"@ + v);
    }
}

pub proof fn lemma_optional_one_line(o: Option<Seq<char>>)
    ensures
        is_one_line(optional(o)),
{
    reveal_strlit("null");
    match o {
        Some(s) => law_json_string_is_one_line(s),
        None => {},
    }
}

// ---------------------------------------------------------------------------
// Where a value ends
// ---------------------------------------------------------------------------
/// Behind one beginning, equal texts go on equally.
pub proof fn lemma_same_start(k: Seq<char>, x: Seq<char>, y: Seq<char>)
    requires
        k + x == k + y,
    ensures
        x == y,
{
    assert(x =~= (k + x).skip(k.len() as int));
    assert(y =~= (k + y).skip(k.len() as int));
}

/// Texts can be joined from either side.
pub proof fn lemma_regroup(a: Seq<char>, b: Seq<char>, c: Seq<char>)
    ensures
        (a + b) + c == a + (b + c),
{
    assert((a + b) + c =~= a + (b + c));
}

proof fn lemma_hex_char_injective(a: nat, b: nat)
    requires
        a < 16,
        b < 16,
        ip::hex_char(a) == ip::hex_char(b),
    ensures
        a == b,
{
    assert(ip::hex_char(a) as nat == if a < 10 {
        48 + a
    } else {
        87 + a
    });
    assert(ip::hex_char(b) as nat == if b < 10 {
        48 + b
    } else {
        87 + b
    });
}

/// What stands for a character tells the character, and where it ends.
proof fn lemma_escaped_char_ends(c: char, x: Seq<char>, d: char, y: Seq<char>)
    requires
        escaped_char(c) + x == escaped_char(d) + y,
    ensures
        c == d,
        x == y,
{
    let e = escaped_char(c);
    let f = escaped_char(d);
    let s = e + x;
    assert(s[0] == e[0]);
    assert(s[0] == f[0]);
    if e.len() > 1 && f.len() > 1 {
        assert(s[1] == e[1]);
        assert(s[1] == f[1]);
        if e.len() == 6 && f.len() == 6 {
            assert(s[4] == e[4] && s[4] == f[4]);
            assert(s[5] == e[5] && s[5] == f[5]);
            lemma_hex_char_injective(c as nat / 16, d as nat / 16);
            lemma_hex_char_injective(c as nat % 16, d as nat % 16);
            assert(c as nat == d as nat);
        }
    }
    assert(c == d);
    lemma_same_start(e, x, y);
}

/// Escaping goes from left to right.
proof fn lemma_escaped_first(s: Seq<char>)
    requires
        s.len() > 0,
    ensures
        escaped(s) == escaped_char(s[0]) + escaped(s.skip(1)),
    decreases s.len(),
{
    if s.len() == 1 {
        assert(s.drop_last() =~= Seq::<char>::empty());
        assert(s.skip(1) =~= Seq::<char>::empty());
        assert(escaped(s) =~= escaped_char(s[0]) + escaped(s.skip(1)));
    } else {
        lemma_escaped_first(s.drop_last());
        assert(s.drop_last().skip(1) =~= s.skip(1).drop_last());
        assert(s.skip(1).last() == s.last());
        lemma_regroup(
            escaped_char(s[0]),
            escaped(s.skip(1).drop_last()),
            escaped_char(s.last()),
        );
    }
}

proof fn lemma_escaped_starts(s: Seq<char>)
    requires
        s.len() > 0,
    ensures
        escaped(s).len() > 0,
        escaped(s)[0] != '"',
{
    lemma_escaped_first(s);
    assert(escaped(s)[0] == escaped_char(s[0])[0]);
}

proof fn lemma_escaped_ends(a: Seq<char>, x: Seq<char>, b: Seq<char>, y: Seq<char>)
    requires
        escaped(a) + (seq!['"'] + x) == escaped(b) + (seq!['"'] + y),
    ensures
        a == b,
        x == y,
    decreases a.len(),
{
    let s = escaped(a) + (seq!['"'] + x);
    if a.len() == 0 {
        if b.len() > 0 {
            lemma_escaped_starts(b);
            assert(s[0] == '"');
            assert(s[0] == escaped(b)[0]);
        }
        assert(a =~= b);
        assert(x =~= s.skip(1));
        assert(y =~= s.skip(1));
    } else if b.len() == 0 {
        lemma_escaped_starts(a);
        assert(s[0] == '"');
        assert(s[0] == escaped(a)[0]);
    } else {
        lemma_escaped_first(a);
        lemma_escaped_first(b);
        lemma_regroup(escaped_char(a[0]), escaped(a.skip(1)), seq!['"'] + x);
        lemma_regroup(escaped_char(b[0]), escaped(b.skip(1)), seq!['"'] + y);
        lemma_escaped_char_ends(
            a[0],
            escaped(a.skip(1)) + (seq!['"'] + x),
            b[0],
            escaped(b.skip(1)) + (seq!['"'] + y),
        );
        lemma_escaped_ends(a.skip(1), x, b.skip(1), y);
        assert(a =~= seq![a[0]] + a.skip(1));
        assert(b =~= seq![b[0]] + b.skip(1));
    }
}

/// A JSON string tells its text, and where it ends.
pub proof fn lemma_quoted_ends(a: Seq<char>, x: Seq<char>, b: Seq<char>, y: Seq<char>)
    requires
        quoted(a) + x == quoted(b) + y,
    ensures
        a == b,
        x == y,
{
    let q = seq!['"'];
    assert(quoted(a) + x =~= q + (escaped(a) + (q + x)));
    assert(quoted(b) + y =~= q + (escaped(b) + (q + y)));
    lemma_same_start(q, escaped(a) + (q + x), escaped(b) + (q + y));
    lemma_escaped_ends(a, x, b, y);
}

/// A text or nothing tells which of them it is, and where it ends.
pub proof fn lemma_optional_ends(
    a: Option<Seq<char>>,
    x: Seq<char>,
    b: Option<Seq<char>>,
    y: Seq<char>,
)
    requires
        optional(a) + x == optional(b) + y,
    ensures
        a == b,
        x == y,
{
    reveal_strlit("null");
    let s = optional(a) + x;
    assert(s[0] == optional(a)[0]);
    assert(s[0] == optional(b)[0]);
    match (a, b) {
        (Some(t), Some(u)) => lemma_quoted_ends(t, x, u, y),
        (None, None) => lemma_same_start("null"@, x, y),
        _ => {},
    }
}

/// The items behind the first, each after its comma, and the end.
spec fn further_items(items: Seq<Seq<char>>, end: Seq<char>) -> Seq<char>
    decreases items.len(),
{
    if items.len() == 0 {
        end
    } else {
        ","@ + (quoted(items[0]) + further_items(items.skip(1), end))
    }
}

proof fn lemma_further_item(items: Seq<Seq<char>>, last: Seq<char>, end: Seq<char>)
    ensures
        further_items(items, ","@ + (quoted(last) + end)) == further_items(items.push(last), end),
    decreases items.len(),
{
    let all = items.push(last);
    if items.len() == 0 {
        assert(all.skip(1) =~= Seq::<Seq<char>>::empty());
        reveal_with_fuel(further_items, 2);
    } else {
        lemma_further_item(items.skip(1), last, end);
        assert(all.skip(1) =~= items.skip(1).push(last));
        assert(all[0] == items[0]);
    }
}

proof fn lemma_list_first(items: Seq<Seq<char>>, end: Seq<char>)
    requires
        items.len() > 0,
    ensures
        list_items(items) + end == quoted(items[0]) + further_items(items.skip(1), end),
    decreases items.len(),
{
    if items.len() == 1 {
        assert(items.skip(1) =~= Seq::<Seq<char>>::empty());
    } else {
        let front = items.drop_last();
        let last = ","@ + (quoted(items.last()) + end);
        assert(list_items(items) + end =~= list_items(front) + last);
        lemma_list_first(front, last);
        lemma_further_item(front.skip(1), items.last(), end);
        assert(front.skip(1).push(items.last()) =~= items.skip(1));
    }
}

proof fn lemma_further_items_end(
    a: Seq<Seq<char>>,
    x: Seq<char>,
    b: Seq<Seq<char>>,
    y: Seq<char>,
)
    requires
        further_items(a, "]"@ + x) == further_items(b, "]"@ + y),
    ensures
        a == b,
        x == y,
    decreases a.len(),
{
    reveal_strlit("]");
    reveal_strlit(",");
    let s = further_items(a, "]"@ + x);
    if a.len() == 0 {
        assert(s[0] == ']');
        assert(b.len() == 0);
        lemma_same_start("]"@, x, y);
        assert(a =~= b);
    } else {
        assert(s[0] == ',');
        assert(b.len() > 0);
        let p = further_items(a.skip(1), "]"@ + x);
        let q = further_items(b.skip(1), "]"@ + y);
        lemma_same_start(","@, quoted(a[0]) + p, quoted(b[0]) + q);
        lemma_quoted_ends(a[0], p, b[0], q);
        lemma_further_items_end(a.skip(1), x, b.skip(1), y);
        assert(a =~= seq![a[0]] + a.skip(1));
        assert(b =~= seq![b[0]] + b.skip(1));
    }
}

/// A list tells its items, and where it ends.
pub proof fn lemma_list_ends(a: Seq<Seq<char>>, x: Seq<char>, b: Seq<Seq<char>>, y: Seq<char>)
    requires
        list(a) + x == list(b) + y,
    ensures
        a == b,
        x == y,
{
    reveal_strlit("]");
    let p = "]"@ + x;
    let q = "]"@ + y;
    assert(list(a) + x =~= "["@ + (list_items(a) + p));
    assert(list(b) + y =~= "["@ + (list_items(b) + q));
    lemma_same_start("["@, list_items(a) + p, list_items(b) + q);
    let s = list_items(a) + p;
    if a.len() == 0 {
        assert(s[0] == ']');
        if b.len() > 0 {
            lemma_list_first(b, q);
            assert(s[0] == '"');
        }
        assert(a =~= b);
        assert(s =~= p && s =~= q);
        lemma_same_start("]"@, x, y);
    } else if b.len() == 0 {
        lemma_list_first(a, p);
        assert(s[0] == '"');
        assert(s[0] == ']');
    } else {
        lemma_list_first(a, p);
        lemma_list_first(b, q);
        lemma_quoted_ends(
            a[0],
            further_items(a.skip(1), p),
            b[0],
            further_items(b.skip(1), q),
        );
        lemma_further_items_end(a.skip(1), x, b.skip(1), y);
        assert(a =~= seq![a[0]] + a.skip(1));
        assert(b =~= seq![b[0]] + b.skip(1));
    }
}

/// A member of an object.
spec fn member(p: Pair) -> Seq<char> {
    quoted(p.0) + ":"@ + quoted(p.1)
}

proof fn lemma_member_ends(a: Pair, x: Seq<char>, b: Pair, y: Seq<char>)
    requires
        member(a) + x == member(b) + y,
    ensures
        a == b,
        x == y,
{
    assert(member(a) + x =~= quoted(a.0) + (":"@ + (quoted(a.1) + x)));
    assert(member(b) + y =~= quoted(b.0) + (":"@ + (quoted(b.1) + y)));
    lemma_quoted_ends(a.0, ":"@ + (quoted(a.1) + x), b.0, ":"@ + (quoted(b.1) + y));
    lemma_same_start(":"@, quoted(a.1) + x, quoted(b.1) + y);
    lemma_quoted_ends(a.1, x, b.1, y);
}

/// The members behind the first, each after its comma, and the end.
spec fn further_members(members: Seq<Pair>, end: Seq<char>) -> Seq<char>
    decreases members.len(),
{
    if members.len() == 0 {
        end
    } else {
        ","@ + (member(members[0]) + further_members(members.skip(1), end))
    }
}

proof fn lemma_further_member(members: Seq<Pair>, last: Pair, end: Seq<char>)
    ensures
        further_members(members, ","@ + (member(last) + end)) == further_members(
            members.push(last),
            end,
        ),
    decreases members.len(),
{
    let all = members.push(last);
    if members.len() == 0 {
        assert(all.skip(1) =~= Seq::<Pair>::empty());
        reveal_with_fuel(further_members, 2);
    } else {
        lemma_further_member(members.skip(1), last, end);
        assert(all.skip(1) =~= members.skip(1).push(last));
        assert(all[0] == members[0]);
    }
}

proof fn lemma_object_first(members: Seq<Pair>, end: Seq<char>)
    requires
        members.len() > 0,
    ensures
        object_members(members) + end == member(members[0]) + further_members(members.skip(1), end),
    decreases members.len(),
{
    if members.len() == 1 {
        assert(members.skip(1) =~= Seq::<Pair>::empty());
    } else {
        let front = members.drop_last();
        let last = ","@ + (member(members.last()) + end);
        assert(object_members(members) + end =~= object_members(front) + last);
        lemma_object_first(front, last);
        lemma_further_member(front.skip(1), members.last(), end);
        assert(front.skip(1).push(members.last()) =~= members.skip(1));
    }
}

proof fn lemma_further_members_end(a: Seq<Pair>, x: Seq<char>, b: Seq<Pair>, y: Seq<char>)
    requires
        further_members(a, "}"@ + x) == further_members(b, "}"@ + y),
    ensures
        a == b,
        x == y,
    decreases a.len(),
{
    reveal_strlit("}");
    reveal_strlit(",");
    let s = further_members(a, "}"@ + x);
    if a.len() == 0 {
        assert(s[0] == '}');
        assert(b.len() == 0);
        lemma_same_start("}"@, x, y);
        assert(a =~= b);
    } else {
        assert(s[0] == ',');
        assert(b.len() > 0);
        let p = further_members(a.skip(1), "}"@ + x);
        let q = further_members(b.skip(1), "}"@ + y);
        lemma_same_start(","@, member(a[0]) + p, member(b[0]) + q);
        lemma_member_ends(a[0], p, b[0], q);
        lemma_further_members_end(a.skip(1), x, b.skip(1), y);
        assert(a =~= seq![a[0]] + a.skip(1));
        assert(b =~= seq![b[0]] + b.skip(1));
    }
}

/// An object tells its members, and where it ends.
pub proof fn lemma_object_ends(a: Seq<Pair>, x: Seq<char>, b: Seq<Pair>, y: Seq<char>)
    requires
        object(a) + x == object(b) + y,
    ensures
        a == b,
        x == y,
{
    reveal_strlit("}");
    let p = "}"@ + x;
    let q = "}"@ + y;
    assert(object(a) + x =~= "{"@ + (object_members(a) + p));
    assert(object(b) + y =~= "{"@ + (object_members(b) + q));
    lemma_same_start("{"@, object_members(a) + p, object_members(b) + q);
    let s = object_members(a) + p;
    if a.len() == 0 {
        assert(s[0] == '}');
        if b.len() > 0 {
            lemma_object_first(b, q);
            assert(s[0] == '"');
        }
        assert(a =~= b);
        assert(s =~= p && s =~= q);
        lemma_same_start("}"@, x, y);
    } else if b.len() == 0 {
        lemma_object_first(a, p);
        assert(s[0] == '"');
        assert(s[0] == '}');
    } else {
        lemma_object_first(a, p);
        lemma_object_first(b, q);
        lemma_member_ends(
            a[0],
            further_members(a.skip(1), p),
            b[0],
            further_members(b.skip(1), q),
        );
        lemma_further_members_end(a.skip(1), x, b.skip(1), y);
        assert(a =~= seq![a[0]] + a.skip(1));
        assert(b =~= seq![b[0]] + b.skip(1));
    }
}

/// A list goes on behind a comma, however it is put together, and so does an object.
pub proof fn law_lists_and_objects_go_on(
    a: Seq<Seq<char>>,
    b: Seq<Seq<char>>,
    m: Seq<Pair>,
    n: Seq<Pair>,
)
    ensures
        a.len() > 0 && b.len() > 0 ==> list_items(a + b) == list_items(a) + ","@ + list_items(b),
        m.len() > 0 && n.len() > 0 ==> object_members(m + n) == object_members(m) + ","@
            + object_members(n),
        list(Seq::empty()) == "["@ + "]"@,
        object(Seq::empty()) == "{"@ + "}"@,
{
    if a.len() > 0 && b.len() > 0 {
        lemma_items_go_on(a, b);
    }
    if m.len() > 0 && n.len() > 0 {
        lemma_members_go_on(m, n);
    }
    assert("["@ + Seq::<char>::empty() =~= "["@);
    assert("{"@ + Seq::<char>::empty() =~= "{"@);
}

proof fn lemma_items_go_on(a: Seq<Seq<char>>, b: Seq<Seq<char>>)
    requires
        a.len() > 0,
        b.len() > 0,
    ensures
        list_items(a + b) == list_items(a) + ","@ + list_items(b),
    decreases b.len(),
{
    assert((a + b).last() == b.last());
    assert((a + b).drop_last() =~= a + b.drop_last());
    if b.len() == 1 {
        assert(a + b.drop_last() =~= a);
    } else {
        lemma_items_go_on(a, b.drop_last());
        assert(list_items(a + b) =~= list_items(a) + ","@ + list_items(b));
    }
}

proof fn lemma_members_go_on(a: Seq<Pair>, b: Seq<Pair>)
    requires
        a.len() > 0,
        b.len() > 0,
    ensures
        object_members(a + b) == object_members(a) + ","@ + object_members(b),
    decreases b.len(),
{
    assert((a + b).last() == b.last());
    assert((a + b).drop_last() =~= a + b.drop_last());
    if b.len() == 1 {
        assert(a + b.drop_last() =~= a);
    } else {
        lemma_members_go_on(a, b.drop_last());
        assert(object_members(a + b) =~= object_members(a) + ","@ + object_members(b));
    }
}

/// Characters are escaped each by itself; a plain one stands for itself.
pub proof fn law_characters_are_escaped_apart(a: Seq<char>, b: Seq<char>, c: char)
    ensures
        escaped(a + b) == escaped(a) + escaped(b),
        c as u32 >= 0x20 && c != '"' && c != '\\' ==> escaped(seq![c]) == seq![c],
        escaped(seq!['"']) == seq!['\\', '"'],
        escaped(seq!['\\']) == seq!['\\', '\\'],
    decreases b.len(),
{
    assert forall|d: char| #[trigger] escaped(seq![d]) == escaped_char(d) by {
        let one = seq![d];
        assert(one.drop_last() =~= Seq::<char>::empty());
        assert(escaped(one.drop_last()) =~= Seq::<char>::empty());
        assert(Seq::<char>::empty() + escaped_char(d) =~= escaped_char(d));
    }
    if b.len() == 0 {
        assert(a + b =~= a);
        assert(escaped(a) + escaped(b) =~= escaped(a));
    } else {
        law_characters_are_escaped_apart(a, b.drop_last(), c);
        assert((a + b).drop_last() =~= a + b.drop_last());
        assert((a + b).last() == b.last());
        assert(escaped(a + b) =~= escaped(a) + escaped(b));
    }
}

} // verus!
