//! What the guest logs is what the relay finds: the log line of an entry comes out
//! of a line of the proxy whole.
use vstd::prelude::*;

use crate::audit;
use crate::audit::AuditModel;
use crate::ip;
use crate::json;
use crate::relay::event;
use crate::relay::parser;
use crate::request::Pair;
use crate::text;

verus! {

/// The text `t` stands in `s` at `i`.
pub open spec fn is_at(s: Seq<char>, i: int, t: Seq<char>) -> bool {
    &&& 0 <= i
    &&& i + t.len() <= s.len()
    &&& s.subrange(i, i + t.len()) == t
}

/// Within an object and outside its strings, the search for its end passes over
/// `t`, wherever that stands.
pub open spec fn is_passed(t: Seq<char>) -> bool {
    forall|s: Seq<char>, i: int, d: int|
        #![trigger is_at(s, i, t), parser::object_end(s, i, d, false, false)]
        is_at(s, i, t) && d >= 1 ==> parser::object_end(s, i, d, false, false)
            == parser::object_end(s, i + t.len(), d, false, false)
}

proof fn lemma_at_part(s: Seq<char>, i: int, t: Seq<char>, from: int, to: int)
    requires
        is_at(s, i, t),
        0 <= from <= to <= t.len(),
    ensures
        is_at(s, i + from, t.subrange(from, to)),
{
    let p = t.subrange(from, to);
    assert forall|k: int| 0 <= k < p.len() implies s.subrange(i + from, i + from + p.len())[k]
        == p[k] by {
        assert(s.subrange(i, i + t.len())[from + k] == t[from + k]);
    }
    assert(s.subrange(i + from, i + from + p.len()) =~= p);
}

proof fn lemma_at_char(s: Seq<char>, i: int, t: Seq<char>, k: int)
    requires
        is_at(s, i, t),
        0 <= k < t.len(),
    ensures
        s[i + k] == t[k],
{
    assert(s.subrange(i, i + t.len())[k] == t[k]);
}

proof fn lemma_passed_join(a: Seq<char>, b: Seq<char>)
    requires
        is_passed(a),
        is_passed(b),
    ensures
        is_passed(a + b),
{
    let t = a + b;
    assert forall|s: Seq<char>, i: int, d: int|
        #![trigger is_at(s, i, t), parser::object_end(s, i, d, false, false)]
        is_at(s, i, t) && d >= 1 implies parser::object_end(s, i, d, false, false)
        == parser::object_end(s, i + t.len(), d, false, false) by {
        lemma_at_part(s, i, t, 0, a.len() as int);
        lemma_at_part(s, i, t, a.len() as int, t.len() as int);
        assert(t.subrange(0, a.len() as int) =~= a);
        assert(t.subrange(a.len() as int, t.len() as int) =~= b);
        assert(is_at(s, i, a));
        assert(is_at(s, i + a.len(), b));
        assert(parser::object_end(s, i + a.len(), d, false, false) == parser::object_end(
            s,
            i + a.len() + b.len(),
            d,
            false,
            false,
        ));
    }
}

/// Neither a quotation mark nor a brace.
spec fn is_plain(t: Seq<char>) -> bool {
    forall|k: int| 0 <= k < t.len() ==> (#[trigger] t[k]) != '"' && t[k] != '{' && t[k] != '}'
}

proof fn lemma_scan_plain(s: Seq<char>, i: int, t: Seq<char>, d: int)
    requires
        is_at(s, i, t),
        is_plain(t),
    ensures
        parser::object_end(s, i, d, false, false) == parser::object_end(
            s,
            i + t.len(),
            d,
            false,
            false,
        ),
    decreases t.len(),
{
    if t.len() > 0 {
        lemma_at_char(s, i, t, 0);
        lemma_at_part(s, i, t, 1, t.len() as int);
        let r = t.subrange(1, t.len() as int);
        assert forall|k: int| 0 <= k < r.len() implies (#[trigger] r[k]) != '"' && r[k] != '{'
            && r[k] != '}' by {
            assert(r[k] == t[k + 1]);
        }
        lemma_scan_plain(s, i + 1, r, d);
    }
}

proof fn lemma_plain_passed(t: Seq<char>)
    requires
        is_plain(t),
    ensures
        is_passed(t),
{
    assert forall|s: Seq<char>, i: int, d: int|
        #![trigger is_at(s, i, t), parser::object_end(s, i, d, false, false)]
        is_at(s, i, t) && d >= 1 implies parser::object_end(s, i, d, false, false)
        == parser::object_end(s, i + t.len(), d, false, false) by {
        lemma_scan_plain(s, i, t, d);
    }
}

/// Inside a string, what is not escaped and no quotation mark is passed over.
proof fn lemma_scan_in_string(s: Seq<char>, i: int, t: Seq<char>, d: int)
    requires
        is_at(s, i, t),
        forall|k: int| 0 <= k < t.len() ==> (#[trigger] t[k]) != '"' && t[k] != '\\',
    ensures
        parser::object_end(s, i, d, true, false) == parser::object_end(
            s,
            i + t.len(),
            d,
            true,
            false,
        ),
    decreases t.len(),
{
    if t.len() > 0 {
        lemma_at_char(s, i, t, 0);
        lemma_at_part(s, i, t, 1, t.len() as int);
        let r = t.subrange(1, t.len() as int);
        assert forall|k: int| 0 <= k < r.len() implies (#[trigger] r[k]) != '"' && r[k]
            != '\\' by {
            assert(r[k] == t[k + 1]);
        }
        lemma_scan_in_string(s, i + 1, r, d);
    }
}

proof fn lemma_scan_escaped_char(s: Seq<char>, i: int, c: char, d: int)
    requires
        is_at(s, i, json::escaped_char(c)),
    ensures
        parser::object_end(s, i, d, true, false) == parser::object_end(
            s,
            i + json::escaped_char(c).len(),
            d,
            true,
            false,
        ),
{
    let e = json::escaped_char(c);
    lemma_at_char(s, i, e, 0);
    if e.len() > 1 {
        lemma_at_char(s, i, e, 1);
        assert(parser::object_end(s, i, d, true, false) == parser::object_end(
            s,
            i + 1,
            d,
            true,
            true,
        ));
        assert(parser::object_end(s, i + 1, d, true, true) == parser::object_end(
            s,
            i + 2,
            d,
            true,
            false,
        ));
        lemma_at_part(s, i, e, 2, e.len() as int);
        let r = e.subrange(2, e.len() as int);
        assert forall|k: int| 0 <= k < r.len() implies (#[trigger] r[k]) != '"' && r[k]
            != '\\' by {
            assert(r[k] == e[k + 2]);
            let high = c as nat / 16;
            let low = c as nat % 16;
            assert(ip::hex_char(high) as u32 >= 48 && ip::hex_char(high) != '\\');
            assert(ip::hex_char(low) as u32 >= 48 && ip::hex_char(low) != '\\');
        }
        lemma_scan_in_string(s, i + 2, r, d);
    } else {
        lemma_scan_in_string(s, i, e, d);
    }
}

proof fn lemma_scan_escaped(s: Seq<char>, i: int, a: Seq<char>, d: int)
    requires
        is_at(s, i, json::escaped(a)),
    ensures
        parser::object_end(s, i, d, true, false) == parser::object_end(
            s,
            i + json::escaped(a).len(),
            d,
            true,
            false,
        ),
    decreases a.len(),
{
    if a.len() > 0 {
        let e = json::escaped(a);
        let f = json::escaped(a.drop_last());
        lemma_at_part(s, i, e, 0, f.len() as int);
        lemma_at_part(s, i, e, f.len() as int, e.len() as int);
        assert(e.subrange(0, f.len() as int) =~= f);
        assert(e.subrange(f.len() as int, e.len() as int) =~= json::escaped_char(a.last()));
        lemma_scan_escaped(s, i, a.drop_last(), d);
        lemma_scan_escaped_char(s, i + f.len(), a.last(), d);
    }
}

proof fn lemma_quoted_passed(a: Seq<char>)
    ensures
        is_passed(json::quoted(a)),
{
    let t = json::quoted(a);
    let e = json::escaped(a);
    assert forall|s: Seq<char>, i: int, d: int|
        #![trigger is_at(s, i, t), parser::object_end(s, i, d, false, false)]
        is_at(s, i, t) && d >= 1 implies parser::object_end(s, i, d, false, false)
        == parser::object_end(s, i + t.len(), d, false, false) by {
        lemma_at_char(s, i, t, 0);
        lemma_at_char(s, i, t, t.len() - 1);
        lemma_at_part(s, i, t, 1, t.len() - 1);
        assert(t.subrange(1, t.len() - 1) =~= e);
        lemma_scan_escaped(s, i + 1, a, d);
        assert(parser::object_end(s, i, d, false, false) == parser::object_end(
            s,
            i + 1,
            d,
            true,
            false,
        ));
        assert(parser::object_end(s, i + 1 + e.len(), d, true, false) == parser::object_end(
            s,
            i + t.len(),
            d,
            false,
            false,
        ));
    }
}

/// A name in quotation marks, with what stands before and behind it.
spec fn is_key(k: Seq<char>, open: int, close: int) -> bool {
    &&& 0 <= open < close < k.len()
    &&& k[open] == '"'
    &&& k[close] == '"'
    &&& is_plain(k.subrange(0, open))
    &&& is_plain(k.subrange(close + 1, k.len() as int))
    &&& forall|x: int| open < x < close ==> (#[trigger] k[x]) != '"' && k[x] != '\\'
}

proof fn lemma_key_passed(k: Seq<char>, open: int, close: int)
    requires
        is_key(k, open, close),
    ensures
        is_passed(k),
{
    let name = k.subrange(open + 1, close);
    assert forall|s: Seq<char>, i: int, d: int|
        #![trigger is_at(s, i, k), parser::object_end(s, i, d, false, false)]
        is_at(s, i, k) && d >= 1 implies parser::object_end(s, i, d, false, false)
        == parser::object_end(s, i + k.len(), d, false, false) by {
        lemma_at_part(s, i, k, 0, open);
        lemma_scan_plain(s, i, k.subrange(0, open), d);
        lemma_at_char(s, i, k, open);
        assert(parser::object_end(s, i + open, d, false, false) == parser::object_end(
            s,
            i + open + 1,
            d,
            true,
            false,
        ));
        lemma_at_part(s, i, k, open + 1, close);
        lemma_scan_in_string(s, i + open + 1, name, d);
        lemma_at_char(s, i, k, close);
        assert(parser::object_end(s, i + close, d, true, false) == parser::object_end(
            s,
            i + close + 1,
            d,
            false,
            false,
        ));
        lemma_at_part(s, i, k, close + 1, k.len() as int);
        lemma_scan_plain(s, i + close + 1, k.subrange(close + 1, k.len() as int), d);
    }
}

proof fn lemma_optional_passed(o: Option<Seq<char>>)
    ensures
        is_passed(json::optional(o)),
{
    match o {
        Some(a) => lemma_quoted_passed(a),
        None => {
            reveal_strlit("null");
            lemma_plain_passed("null"@);
        },
    }
}

proof fn lemma_items_passed(items: Seq<Seq<char>>)
    ensures
        is_passed(json::list_items(items)),
    decreases items.len(),
{
    if items.len() == 0 {
        lemma_plain_passed(json::list_items(items));
    } else if items.len() == 1 {
        lemma_quoted_passed(items[0]);
    } else {
        reveal_strlit(",");
        let front = json::list_items(items.drop_last());
        lemma_items_passed(items.drop_last());
        lemma_plain_passed(","@);
        lemma_quoted_passed(items.last());
        lemma_passed_join(front, ","@);
        lemma_passed_join(front + ","@, json::quoted(items.last()));
    }
}

proof fn lemma_list_passed(items: Seq<Seq<char>>)
    ensures
        is_passed(json::list(items)),
{
    reveal_strlit("[");
    reveal_strlit("]");
    lemma_plain_passed("["@);
    lemma_plain_passed("]"@);
    lemma_items_passed(items);
    lemma_passed_join("["@, json::list_items(items));
    lemma_passed_join("["@ + json::list_items(items), "]"@);
}

proof fn lemma_members_passed(members: Seq<Pair>)
    ensures
        is_passed(json::object_members(members)),
    decreases members.len(),
{
    if members.len() == 0 {
        lemma_plain_passed(json::object_members(members));
    } else {
        reveal_strlit(":");
        reveal_strlit(",");
        let (key, value) = (json::quoted(members.last().0), json::quoted(members.last().1));
        lemma_quoted_passed(members.last().0);
        lemma_quoted_passed(members.last().1);
        lemma_plain_passed(":"@);
        lemma_passed_join(key, ":"@);
        lemma_passed_join(key + ":"@, value);
        if members.len() > 1 {
            let front = json::object_members(members.drop_last());
            lemma_members_passed(members.drop_last());
            lemma_plain_passed(","@);
            lemma_passed_join(front, ","@);
            lemma_passed_join(front + ","@, key + ":"@ + value);
        }
    }
}

proof fn lemma_object_passed(members: Seq<Pair>)
    ensures
        is_passed(json::object(members)),
{
    reveal_strlit("{");
    reveal_strlit("}");
    let t = json::object(members);
    let m = json::object_members(members);
    lemma_members_passed(members);
    assert forall|s: Seq<char>, i: int, d: int|
        #![trigger is_at(s, i, t), parser::object_end(s, i, d, false, false)]
        is_at(s, i, t) && d >= 1 implies parser::object_end(s, i, d, false, false)
        == parser::object_end(s, i + t.len(), d, false, false) by {
        lemma_at_char(s, i, t, 0);
        lemma_at_char(s, i, t, t.len() - 1);
        lemma_at_part(s, i, t, 1, t.len() - 1);
        assert(t.subrange(1, t.len() - 1) =~= m);
        assert(parser::object_end(s, i, d, false, false) == parser::object_end(
            s,
            i + 1,
            d + 1,
            false,
            false,
        ));
        assert(is_at(s, i + 1, m));
        assert(parser::object_end(s, i + 1, d + 1, false, false) == parser::object_end(
            s,
            i + 1 + m.len(),
            d + 1,
            false,
            false,
        ));
    }
}

/// What stands between the outer braces of a log line.
proof fn lemma_log_line_inside(e: AuditModel) -> (inside: Seq<char>)
    ensures
        audit::log_line(e) == "{"@ + inside + "}"@,
        is_passed(inside),
{
    reveal_strlit("{");
    reveal_strlit("{\"host\":");
    reveal_strlit("\"host\":");
    reveal_strlit(",\"path\":");
    reveal_strlit(",\"query\":");
    reveal_strlit(",\"method\":");
    reveal_strlit(",\"source_ip\":");
    reveal_strlit(",\"action\":");
    reveal_strlit(",\"blocked_rule\":");
    reveal_strlit(",\"blocked_severity\":");
    reveal_strlit(",\"blocked_detail\":");
    reveal_strlit(",\"would_block_rules\":");
    reveal_strlit(",\"body_truncated\":true");
    reveal_strlit(",\"config_fallback\":true");
    reveal_strlit(",\"labels\":");
    lemma_key_passed("\"host\":"@, 0, 5);
    lemma_quoted_passed(e.host);
    lemma_key_passed(",\"path\":"@, 1, 6);
    lemma_quoted_passed(e.path);
    lemma_key_passed(",\"query\":"@, 1, 7);
    lemma_optional_passed(e.query);
    lemma_key_passed(",\"method\":"@, 1, 8);
    lemma_quoted_passed(e.method);
    lemma_key_passed(",\"source_ip\":"@, 1, 11);
    lemma_quoted_passed(e.source_ip);
    lemma_key_passed(",\"action\":"@, 1, 8);
    lemma_quoted_passed(e.action);
    lemma_key_passed(",\"blocked_rule\":"@, 1, 14);
    lemma_optional_passed(e.blocked_rule);
    lemma_key_passed(",\"blocked_severity\":"@, 1, 18);
    lemma_optional_passed(e.blocked_severity);
    lemma_key_passed(",\"blocked_detail\":"@, 1, 16);
    lemma_optional_passed(e.blocked_detail);
    lemma_key_passed(",\"would_block_rules\":"@, 1, 19);
    lemma_list_passed(e.would_block_rules);
    lemma_key_passed(",\"body_truncated\":true"@, 1, 16);
    lemma_key_passed(",\"config_fallback\":true"@, 1, 17);
    lemma_key_passed(",\"labels\":"@, 1, 8);
    lemma_object_passed(e.labels);
    lemma_passed_join(",\"labels\":"@, json::object(e.labels));
    lemma_plain_passed(Seq::empty());
    let truncated = if e.body_truncated {
        ",\"body_truncated\":true"@
    } else {
        Seq::empty()
    };
    let fallback = if e.config_fallback {
        ",\"config_fallback\":true"@
    } else {
        Seq::empty()
    };
    let labels = if e.labels.len() > 0 {
        ",\"labels\":"@ + json::object(e.labels)
    } else {
        Seq::empty()
    };
    let a0 = "\"host\":"@;
    assert("{\"host\":"@ =~= "{"@ + a0);
    let a1 = a0 + json::quoted(e.host);
    lemma_passed_join(a0, json::quoted(e.host));
    json::lemma_regroup("{"@, a0, json::quoted(e.host));
    let a2 = a1 + ",\"path\":"@;
    lemma_passed_join(a1, ",\"path\":"@);
    json::lemma_regroup("{"@, a1, ",\"path\":"@);
    let a3 = a2 + json::quoted(e.path);
    lemma_passed_join(a2, json::quoted(e.path));
    json::lemma_regroup("{"@, a2, json::quoted(e.path));
    let a4 = a3 + ",\"query\":"@;
    lemma_passed_join(a3, ",\"query\":"@);
    json::lemma_regroup("{"@, a3, ",\"query\":"@);
    let a5 = a4 + json::optional(e.query);
    lemma_passed_join(a4, json::optional(e.query));
    json::lemma_regroup("{"@, a4, json::optional(e.query));
    let a6 = a5 + ",\"method\":"@;
    lemma_passed_join(a5, ",\"method\":"@);
    json::lemma_regroup("{"@, a5, ",\"method\":"@);
    let a7 = a6 + json::quoted(e.method);
    lemma_passed_join(a6, json::quoted(e.method));
    json::lemma_regroup("{"@, a6, json::quoted(e.method));
    let a8 = a7 + ",\"source_ip\":"@;
    lemma_passed_join(a7, ",\"source_ip\":"@);
    json::lemma_regroup("{"@, a7, ",\"source_ip\":"@);
    let a9 = a8 + json::quoted(e.source_ip);
    lemma_passed_join(a8, json::quoted(e.source_ip));
    json::lemma_regroup("{"@, a8, json::quoted(e.source_ip));
    let a10 = a9 + ",\"action\":"@;
    lemma_passed_join(a9, ",\"action\":"@);
    json::lemma_regroup("{"@, a9, ",\"action\":"@);
    let a11 = a10 + json::quoted(e.action);
    lemma_passed_join(a10, json::quoted(e.action));
    json::lemma_regroup("{"@, a10, json::quoted(e.action));
    let a12 = a11 + ",\"blocked_rule\":"@;
    lemma_passed_join(a11, ",\"blocked_rule\":"@);
    json::lemma_regroup("{"@, a11, ",\"blocked_rule\":"@);
    let a13 = a12 + json::optional(e.blocked_rule);
    lemma_passed_join(a12, json::optional(e.blocked_rule));
    json::lemma_regroup("{"@, a12, json::optional(e.blocked_rule));
    let a14 = a13 + ",\"blocked_severity\":"@;
    lemma_passed_join(a13, ",\"blocked_severity\":"@);
    json::lemma_regroup("{"@, a13, ",\"blocked_severity\":"@);
    let a15 = a14 + json::optional(e.blocked_severity);
    lemma_passed_join(a14, json::optional(e.blocked_severity));
    json::lemma_regroup("{"@, a14, json::optional(e.blocked_severity));
    let a16 = a15 + ",\"blocked_detail\":"@;
    lemma_passed_join(a15, ",\"blocked_detail\":"@);
    json::lemma_regroup("{"@, a15, ",\"blocked_detail\":"@);
    let a17 = a16 + json::optional(e.blocked_detail);
    lemma_passed_join(a16, json::optional(e.blocked_detail));
    json::lemma_regroup("{"@, a16, json::optional(e.blocked_detail));
    let a18 = a17 + ",\"would_block_rules\":"@;
    lemma_passed_join(a17, ",\"would_block_rules\":"@);
    json::lemma_regroup("{"@, a17, ",\"would_block_rules\":"@);
    let a19 = a18 + json::list(e.would_block_rules);
    lemma_passed_join(a18, json::list(e.would_block_rules));
    json::lemma_regroup("{"@, a18, json::list(e.would_block_rules));
    let a20 = a19 + truncated;
    lemma_passed_join(a19, truncated);
    json::lemma_regroup("{"@, a19, truncated);
    let a21 = a20 + fallback;
    lemma_passed_join(a20, fallback);
    json::lemma_regroup("{"@, a20, fallback);
    let a22 = a21 + labels;
    lemma_passed_join(a21, labels);
    json::lemma_regroup("{"@, a21, labels);
    a22
}

/// However the log line of an entry is surrounded, if no other object opens before
/// it, the relay takes just that line out: whatever the entry holds, braces and
/// quotation marks included. What the proxy is said to be is read from the text
/// around the line alone, so nothing that the entry holds can name a source.
pub proof fn law_logged_entry_is_found(front: Seq<char>, e: AuditModel, back: Seq<char>)
    requires
        !front.contains('{'),
    ensures
        parser::object_text(front + audit::log_line(e) + back) == Some(audit::log_line(e)),
        parser::audit_of(front + audit::log_line(e) + back) == parser::audit_in(
            front,
            back,
            event::json_object(audit::log_line(e)),
        ),
{
    reveal_strlit("{");
    reveal_strlit("}");
    let line = audit::log_line(e);
    let s = front + line + back;
    let n = front.len() as int;
    let inside = lemma_log_line_inside(e);
    assert(s.subrange(n, n + line.len()) =~= line);
    assert(is_at(s, n, line));
    lemma_at_char(s, n, line, 0);
    lemma_at_char(s, n, line, line.len() - 1);
    text::lemma_first_index(s, '{');
    assert forall|k: int| 0 <= k < n implies s[k] != '{' by {
        assert(s[k] == front[k]);
        assert(front.contains(front[k]));
    }
    assert(text::first_index(s, '{') == Some(n));
    lemma_at_part(s, n, line, 1, line.len() - 1);
    assert(line.subrange(1, line.len() - 1) =~= inside);
    assert(parser::object_end(s, n, 0, false, false) == parser::object_end(
        s,
        n + 1,
        1,
        false,
        false,
    ));
    assert(is_at(s, n + 1, inside));
    assert(parser::object_end(s, n + 1, 1, false, false) == parser::object_end(
        s,
        n + 1 + inside.len(),
        1,
        false,
        false,
    ));
    assert(parser::object_end(s, n + line.len() - 1, 1, false, false) == Some(
        n + line.len() - 1,
    ));
    assert(s.take(n) =~= front);
    assert(s.skip(n + line.len()) =~= back);
}

/// Braces that match inside an object do not end it, and neither does anything in a text.
pub proof fn law_inner_braces_are_passed(t: Seq<char>, a: Seq<char>)
    requires
        is_passed(t),
    ensures
        is_passed("{"@ + t + "}"@),
        is_passed(json::quoted(a)),
        is_passed(t + json::quoted(a)),
{
    reveal_strlit("{");
    reveal_strlit("}");
    lemma_quoted_passed(a);
    lemma_passed_join(t, json::quoted(a));
    let w = "{"@ + t + "}"@;
    assert forall|s: Seq<char>, i: int, d: int|
        #![trigger is_at(s, i, w), parser::object_end(s, i, d, false, false)]
        is_at(s, i, w) && d >= 1 implies parser::object_end(s, i, d, false, false)
        == parser::object_end(s, i + w.len(), d, false, false) by {
        lemma_at_char(s, i, w, 0);
        lemma_at_char(s, i, w, w.len() - 1);
        lemma_at_part(s, i, w, 1, w.len() - 1);
        assert(w.subrange(1, w.len() - 1) =~= t);
        assert(parser::object_end(s, i, d, false, false) == parser::object_end(
            s,
            i + 1,
            d + 1,
            false,
            false,
        ));
        assert(is_at(s, i + 1, t));
        assert(parser::object_end(s, i + 1, d + 1, false, false) == parser::object_end(
            s,
            i + 1 + t.len(),
            d + 1,
            false,
            false,
        ));
    }
}

/// The first object of a line is taken from its brace to the one that matches it, whatever
/// stands before and behind.
pub proof fn law_first_object_is_taken_whole(front: Seq<char>, t: Seq<char>, back: Seq<char>)
    requires
        !front.contains('{'),
        is_passed(t),
    ensures
        parser::object_text(front + ("{"@ + t + "}"@) + back) == Some("{"@ + t + "}"@),
{
    reveal_strlit("{");
    reveal_strlit("}");
    let line = "{"@ + t + "}"@;
    let s = front + line + back;
    let n = front.len() as int;
    assert(s.subrange(n, n + line.len()) =~= line);
    assert(is_at(s, n, line));
    lemma_at_char(s, n, line, 0);
    lemma_at_char(s, n, line, line.len() - 1);
    text::lemma_first_index(s, '{');
    assert forall|k: int| 0 <= k < n implies s[k] != '{' by {
        assert(s[k] == front[k]);
        assert(front.contains(front[k]));
    }
    assert(text::first_index(s, '{') == Some(n));
    lemma_at_part(s, n, line, 1, line.len() - 1);
    assert(line.subrange(1, line.len() - 1) =~= t);
    assert(parser::object_end(s, n, 0, false, false) == parser::object_end(
        s,
        n + 1,
        1,
        false,
        false,
    ));
    assert(is_at(s, n + 1, t));
    assert(parser::object_end(s, n + 1, 1, false, false) == parser::object_end(
        s,
        n + 1 + t.len(),
        1,
        false,
        false,
    ));
    assert(parser::object_end(s, n + line.len() - 1, 1, false, false) == Some(
        n + line.len() - 1,
    ));
}

} // verus!
