//! Trait demonstrations: shared behavior declared once and
//! implemented by several message types, with contracts carried by
//! spec methods on the traits themselves.

use vstd::prelude::*;

use crate::text::{count_spaces, dec_digits, push_dec_succ, word_count};

verus! {

/// Behavior shared by types that can describe themselves briefly.
pub trait Summary {
    /// The summary the implementing type promises to produce.
    spec fn summary_spec(&self) -> Seq<char>;

    /// The tag value the implementing type promises to report.
    spec fn tag_spec() -> u8;

    /// A short description of the value.
    fn summarize(&self) -> (r: String)
        ensures
            r@ == self.summary_spec(),
    ;

    /// A fixed numeric tag for the implementing type.
    fn tag() -> (t: u8)
        ensures
            t == Self::tag_spec(),
    ;
}

/// A news article, summarized by its title, its author, and the word
/// count of its body.
pub struct NewsArticle {
    pub title: String,
    pub author: String,
    pub content: String,
}

impl Summary for NewsArticle {
    open spec fn summary_spec(&self) -> Seq<char> {
        self.title@ + ", by "@ + self.author@ + " ("@ + dec_digits(word_count(self.content@))
            + ")"@
    }

    open spec fn tag_spec() -> u8 {
        34
    }

    fn summarize(&self) -> (r: String) {
        let spaces = count_spaces(self.content.as_str());
        let mut r = self.title.clone();
        r.append(", by ");
        r.append(self.author.as_str());
        r.append(" (");
        push_dec_succ(spaces, &mut r);
        r.append(")");
        proof {
            assert(r@ =~= self.summary_spec());
        }
        r
    }

    fn tag() -> (t: u8) {
        34
    }
}

/// Behavior shared by message types that can announce themselves.
/// The display text has a default wording that implementors may keep
/// or override.
pub trait Notification {
    /// The author line the implementing type promises to report.
    spec fn author_spec(&self) -> Seq<char>;

    /// The display text the implementing type promises to produce;
    /// by default, the standard wording around the author line.
    open spec fn text_spec(&self) -> Seq<char> {
        "New notification from "@ + self.author_spec() + "...)"@
    }

    /// The message's author.
    fn author(&self) -> (r: String)
        ensures
            r@ == self.author_spec(),
    ;

    /// The message's display text.
    fn text(&self) -> (r: String)
        ensures
            r@ == self.text_spec(),
    ;
}

/// The standard display text wording: what [`Notification::text_spec`]
/// says by default, built from the author line.
pub fn notification_default_text(author: &str) -> (r: String)
    ensures
        r@ == "New notification from "@ + author@ + "...)"@,
{
    let mut r = String::from_str("New notification from ");
    r.append(author);
    r.append("...)");
    proof {
        assert(r@ =~= "New notification from "@ + author@ + "...)"@);
    }
    r
}

/// A message that keeps the default display text.
pub struct WhatsappMessage {
    pub sender: String,
    pub content: String,
}

impl Notification for WhatsappMessage {
    open spec fn author_spec(&self) -> Seq<char> {
        self.sender@
    }

    fn author(&self) -> (r: String) {
        self.sender.clone()
    }

    fn text(&self) -> (r: String) {
        let a = self.author();
        notification_default_text(a.as_str())
    }
}

/// A message that overrides the default display text with one that
/// includes its content.
pub struct SmsMessage {
    pub sender: String,
    pub content: String,
}

impl Notification for SmsMessage {
    open spec fn author_spec(&self) -> Seq<char> {
        self.sender@
    }

    open spec fn text_spec(&self) -> Seq<char> {
        "New SMS from "@ + self.sender@ + ": "@ + self.content@
    }

    fn author(&self) -> (r: String) {
        self.sender.clone()
    }

    fn text(&self) -> (r: String) {
        let mut r = String::from_str("New SMS from ");
        r.append(self.sender.as_str());
        r.append(": ");
        r.append(self.content.as_str());
        proof {
            assert(r@ =~= self.text_spec());
        }
        r
    }
}

/// Builds a sample notification; the caller sees only that it is some
/// `Notification` with the stated author.
pub fn ex_ret_notif() -> (r: impl Notification)
    ensures
        r.author_spec() == "Mark"@,
        r.text_spec() == "New notification from "@ + "Mark"@ + "...)"@,
{
    WhatsappMessage { sender: String::from_str("Mark"), content: String::from_str("Hello!") }
}

/// Builds a sample notification whose author depends on the flag;
/// both branches produce the same concrete type.
pub fn ex_ret_notif_2(b: bool) -> (r: impl Notification)
    ensures
        b ==> r.author_spec() == "Luke"@,
        !b ==> r.author_spec() == "Mark"@,
        r.text_spec() == "New notification from "@ + r.author_spec() + "...)"@,
{
    if b {
        return WhatsappMessage {
            sender: String::from_str("Luke"),
            content: String::from_str("Hello!"),
        };
    }
    WhatsappMessage { sender: String::from_str("Mark"), content: String::from_str("Hello!") }
}

/// A pair of strings announces itself too: the first is the author,
/// the second the text.
impl Notification for (String, String) {
    open spec fn author_spec(&self) -> Seq<char> {
        self.0@
    }

    open spec fn text_spec(&self) -> Seq<char> {
        self.1@
    }

    fn author(&self) -> (r: String) {
        self.0.clone()
    }

    fn text(&self) -> (r: String) {
        self.1.clone()
    }
}

/// A pair of two values of one type.
pub struct Pair<T> {
    pub x: T,
    pub y: T,
}

impl<T> Pair<T> {
    /// Pairs two values.
    pub fn new(x: T, y: T) -> (p: Pair<T>)
        ensures
            p.x == x,
            p.y == y,
    {
        Pair { x, y }
    }
}

impl<T: core::ops::Add + Copy + vstd::std_specs::ops::AddSpec> Pair<T> {
    /// The sum of the pair's components, through the component type's
    /// addition.
    pub fn sum(&self) -> (r: T::Output)
        requires
            self.x.add_req(self.y),
        ensures
            T::obeys_add_spec() ==> r == self.x.add_spec(self.y),
    {
        self.x + self.y
    }
}

} // verus!
