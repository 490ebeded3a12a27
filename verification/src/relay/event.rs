//! Audit events, as they are found in a log line.
use serde_json::Value;
use vstd::prelude::*;

use crate::audit;
use crate::request;
use crate::text::{copy_text, same_text};

verus! {

/// What the relay reads of a member of an event.
#[derive(Debug, PartialEq, Eq)]
pub enum Member {
    /// A text.
    Text(String),
    /// A list; an item that is no text is left out.
    List(Vec<Option<String>>),
    /// An object; of a member that is no text, only the name.
    Table(Vec<(String, Option<String>)>),
    /// A truth value.
    Flag(bool),
    /// A number; which one, the relay does not ask.
    Number,
    /// Nothing.
    Null,
}

/// A member, by its texts.
pub enum MemberView {
    Text(Seq<char>),
    List(Seq<Option<Seq<char>>>),
    Table(Seq<(Seq<char>, Option<Seq<char>>)>),
    Flag(bool),
    Number,
    Null,
}

/// Optional texts, by their characters.
pub open spec fn opt_texts(v: Seq<Option<String>>) -> Seq<Option<Seq<char>>> {
    v.map_values(
        |o: Option<String>| audit::opt_view(o),
    )
}

/// Names with optional texts, by their characters.
pub open spec fn opt_entries(v: Seq<(String, Option<String>)>) -> Seq<
    (Seq<char>, Option<Seq<char>>),
> {
    v.map_values(|e: (String, Option<String>)| (e.0@, audit::opt_view(e.1)))
}

impl View for Member {
    type V = MemberView;

    open spec fn view(&self) -> MemberView {
        match *self {
            Member::Text(s) => MemberView::Text(s@),
            Member::List(v) => MemberView::List(opt_texts(v@)),
            Member::Table(v) => MemberView::Table(opt_entries(v@)),
            Member::Flag(b) => MemberView::Flag(b),
            Member::Number => MemberView::Number,
            Member::Null => MemberView::Null,
        }
    }
}

/// The members of an object, by their texts.
pub open spec fn members_view(v: Seq<(String, Member)>) -> Seq<(Seq<char>, MemberView)> {
    v.map_values(|m: (String, Member)| (m.0@, m.1@))
}

/// An audit event: a JSON object.
#[derive(Debug)]
pub struct AuditEvent {
    /// The object as compact JSON text.
    pub json: String,
    /// Its members.
    pub members: Vec<(String, Member)>,
}

/// What an event holds.
#[verifier::ext_equal]
pub struct EventModel {
    pub json: Seq<char>,
    pub members: Seq<(Seq<char>, MemberView)>,
}

impl View for AuditEvent {
    type V = EventModel;

    open spec fn view(&self) -> EventModel {
        EventModel { json: self.json@, members: members_view(self.members@) }
    }
}

/// A JSON value.
#[verifier::external_type_specification]
#[verifier::external_body]
pub struct ExValue(Value);

/// The JSON value that a text holds, unless it is no JSON.
pub uninterp spec fn json_value(text: Seq<char>) -> Option<Value>;

/// The members of a JSON value that is an object.
pub uninterp spec fn value_members(v: Value) -> Option<Seq<(Seq<char>, MemberView)>>;

/// The compact text of a JSON value.
pub uninterp spec fn value_text(v: Value) -> Seq<char>;

/// `serde_json::from_str`: the value is a function of the text; what it is, is not
/// said here.
#[verifier::external_body]
fn read_value(text: &str) -> (r: Option<Value>)
    ensures
        r == json_value(text@),
{
    serde_json::from_str(text).ok()
}

/// `serde_json::Value::as_object`, and the members that it gives: each as a text, as
/// a list with its texts, as an object with its texts, or by its kind alone. They
/// are a function of the value; which they are, is not said here.
#[verifier::external_body]
fn read_members(v: &Value) -> (r: Option<Vec<(String, Member)>>)
    ensures
        match r {
            Some(m) => value_members(*v) == Some(members_view(m@)),
            None => value_members(*v) is None,
        },
{
    v.as_object().map(|o| o.iter().map(|(k, v)| (k.clone(), match v {
        Value::String(s) => Member::Text(s.clone()),
        Value::Array(a) => Member::List(a.iter().map(|x| x.as_str().map(str::to_string)).collect()),
        Value::Object(o) => Member::Table(
            o.iter().map(|(k, x)| (k.clone(), x.as_str().map(str::to_string))).collect(),
        ),
        Value::Bool(b) => Member::Flag(*b),
        Value::Number(_) => Member::Number,
        Value::Null => Member::Null,
    })).collect())
}

/// `serde_json::Value::to_string`: the compact text is a function of the value; what
/// it is, is not said here.
#[verifier::external_body]
fn write_value(v: &Value) -> (r: String)
    ensures
        r@ == value_text(*v),
{
    v.to_string()
}

/// The compact text and the members of the JSON object that a text holds,
/// unless it holds something else.
pub open spec fn json_object(text: Seq<char>) -> Option<
    (Seq<char>, Seq<(Seq<char>, MemberView)>),
> {
    match json_value(text) {
        Some(v) => match value_members(v) {
            Some(members) => Some((value_text(v), members)),
            None => None,
        },
        None => None,
    }
}

/// The first member of that name.
pub open spec fn member(members: Seq<(Seq<char>, MemberView)>, name: Seq<char>) -> Option<
    MemberView,
>
    decreases members.len(),
{
    if members.len() == 0 {
        None
    } else if members[0].0 == name {
        Some(members[0].1)
    } else {
        member(members.skip(1), name)
    }
}

/// The text under a name.
pub open spec fn text_member(members: Seq<(Seq<char>, MemberView)>, name: Seq<char>) -> Option<
    Seq<char>,
> {
    match member(members, name) {
        Some(MemberView::Text(s)) => Some(s),
        _ => None,
    }
}

/// An optional member, by its texts.
pub open spec fn opt_member(o: Option<&Member>) -> Option<MemberView> {
    match o {
        Some(m) => Some(m@),
        None => None,
    }
}

impl AuditEvent {
    /// Reads a JSON object.
    pub fn parse(text: &str) -> (r: Option<AuditEvent>)
        ensures
            match r {
                Some(e) => json_object(text@) == Some((e@.json, e@.members)),
                None => json_object(text@) is None,
            },
    {
        let value = match read_value(text) {
            Some(v) => v,
            None => {
                return None;
            },
        };
        match read_members(&value) {
            Some(members) => Some(AuditEvent { json: write_value(&value), members }),
            None => None,
        }
    }

    /// The member of that name.
    pub fn get(&self, name: &str) -> (r: Option<&Member>)
        ensures
            opt_member(r) == member(self@.members, name@),
    {
        let ghost all = members_view(self.members@);
        let mut i: usize = 0;
        assert(all.skip(0) == all);
        while i < self.members.len()
            invariant
                i <= self.members@.len(),
                all == members_view(self.members@),
                member(all, name@) == member(all.skip(i as int), name@),
            decreases self.members@.len() - i,
        {
            assert(all.skip(i as int)[0] == (
                self.members@[i as int].0@,
                self.members@[i as int].1@,
            ));
            if same_text(&self.members[i].0, name) {
                return Some(&self.members[i].1);
            }
            assert(all.skip(i as int).skip(1) == all.skip(i + 1));
            i = i + 1;
        }
        None
    }

    /// The text under a name.
    pub fn get_text(&self, name: &str) -> (r: Option<&str>)
        ensures
            request::opt_text(r) == text_member(self@.members, name@),
    {
        match self.get(name) {
            Some(Member::Text(s)) => Some(s.as_str()),
            _ => None,
        }
    }

    /// A copy of the event.
    pub fn copy(&self) -> (r: AuditEvent)
        ensures
            r@ == self@,
    {
        let ghost all = members_view(self.members@);
        let mut members: Vec<(String, Member)> = Vec::new();
        let mut i: usize = 0;
        assert(members_view(members@) =~= all.take(0));
        while i < self.members.len()
            invariant
                i <= self.members@.len(),
                all == members_view(self.members@),
                members_view(members@) == all.take(i as int),
            decreases self.members@.len() - i,
        {
            let ghost before = members_view(members@);
            let name = copy_text(&self.members[i].0);
            let value = copy_member(&self.members[i].1);
            let ghost entry = (name@, value@);
            members.push((name, value));
            assert(members_view(members@) =~= before.push(entry));
            assert(all.take(i + 1) =~= all.take(i as int).push(entry));
            i = i + 1;
        }
        assert(all.take(all.len() as int) == all);
        AuditEvent { json: copy_text(&self.json), members }
    }
}

fn copy_member(m: &Member) -> (r: Member)
    ensures
        r@ == m@,
{
    match m {
        Member::Text(s) => Member::Text(copy_text(s)),
        Member::List(v) => {
            let ghost all = opt_texts(v@);
            let mut out: Vec<Option<String>> = Vec::new();
            let mut i: usize = 0;
            assert(opt_texts(out@) =~= all.take(0));
            while i < v.len()
                invariant
                    i <= v@.len(),
                    all == opt_texts(v@),
                    opt_texts(out@) == all.take(i as int),
                decreases v@.len() - i,
            {
                let ghost before = opt_texts(out@);
                let item = match &v[i] {
                    Some(s) => Some(copy_text(s)),
                    None => None,
                };
                let ghost entry = audit::opt_view(item);
                out.push(item);
                assert(opt_texts(out@) =~= before.push(entry));
                assert(all.take(i + 1) =~= all.take(i as int).push(entry));
                i = i + 1;
            }
            assert(all.take(all.len() as int) == all);
            Member::List(out)
        },
        Member::Table(v) => {
            let ghost all = opt_entries(v@);
            let mut out: Vec<(String, Option<String>)> = Vec::new();
            let mut i: usize = 0;
            assert(opt_entries(out@) =~= all.take(0));
            while i < v.len()
                invariant
                    i <= v@.len(),
                    all == opt_entries(v@),
                    opt_entries(out@) == all.take(i as int),
                decreases v@.len() - i,
            {
                let ghost before = opt_entries(out@);
                let name = copy_text(&v[i].0);
                let value = match &v[i].1 {
                    Some(s) => Some(copy_text(s)),
                    None => None,
                };
                let ghost entry = (name@, audit::opt_view(value));
                out.push((name, value));
                assert(opt_entries(out@) =~= before.push(entry));
                assert(all.take(i + 1) =~= all.take(i as int).push(entry));
                i = i + 1;
            }
            assert(all.take(all.len() as int) == all);
            Member::Table(out)
        },
        Member::Flag(b) => Member::Flag(*b),
        Member::Number => Member::Number,
        Member::Null => Member::Null,
    }
}

/// A member is found wherever it stands.
pub proof fn law_member_is_found_anywhere(
    members: Seq<(Seq<char>, MemberView)>,
    name: Seq<char>,
    i: int,
)
    requires
        0 <= i < members.len(),
        members[i].0 == name,
        forall|j: int| 0 <= j < i ==> (#[trigger] members[j]).0 != name,
    ensures
        member(members, name) == Some(members[i].1),
        members[i].1 matches MemberView::Text(t) ==> text_member(members, name) == Some(t),
        !(members[i].1 is Text) ==> text_member(members, name) is None,
    decreases i,
{
    if i > 0 {
        assert(members[0].0 != name);
        let rest = members.skip(1);
        assert forall|j: int| 0 <= j < i - 1 implies (#[trigger] rest[j]).0 != name by {
            assert(rest[j] == members[j + 1]);
        }
        law_member_is_found_anywhere(rest, name, i - 1);
    }
}

/// A name that no member has is not found.
pub proof fn law_missing_member_is_not_found(
    members: Seq<(Seq<char>, MemberView)>,
    name: Seq<char>,
)
    requires
        forall|j: int| 0 <= j < members.len() ==> (#[trigger] members[j]).0 != name,
    ensures
        member(members, name) is None,
        text_member(members, name) is None,
    decreases members.len(),
{
    if members.len() > 0 {
        assert(members[0].0 != name);
        let rest = members.skip(1);
        assert forall|j: int| 0 <= j < rest.len() implies (#[trigger] rest[j]).0 != name by {
            assert(rest[j] == members[j + 1]);
        }
        law_missing_member_is_not_found(rest, name);
    }
}

} // verus!
