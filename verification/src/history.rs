//! Conversation items and the recognition of context that the harness injects as user
//! messages.

use vstd::prelude::*;

use crate::text::{chars_of, strip_bounds, trim_end, trim_start};

verus! {

/// One piece of a message's content.
#[derive(Clone, Debug, PartialEq, Eq)]
pub enum ContentItem {
    InputText { text: String },
    InputImage { image_url: String },
    OutputText { text: String },
}

/// An item of the conversation history.
#[derive(Clone, Debug, PartialEq, Eq)]
pub enum ResponseItem {
    /// A message, with the role of its author.
    Message { role: String, content: Vec<ContentItem> },
    /// Any other item (tool calls, reasoning, ...).
    Other,
}

/// What a [`ResponseItem`] holds, with its strings and vectors taken by value.
pub enum ResponseItemView {
    Message { role: Seq<char>, content: Seq<ContentItem> },
    Other,
}

impl View for ResponseItem {
    type V = ResponseItemView;

    open spec fn view(&self) -> ResponseItemView {
        match self {
            ResponseItem::Message { role, content } => ResponseItemView::Message {
                role: role@,
                content: content@,
            },
            ResponseItem::Other => ResponseItemView::Other,
        }
    }
}

impl ContentItem {
    /// A copy equal to `self`.
    pub fn duplicate(&self) -> (r: Self)
        ensures
            r == *self,
    {
        match self {
            ContentItem::InputText { text } => ContentItem::InputText { text: text.clone() },
            ContentItem::InputImage { image_url } => ContentItem::InputImage {
                image_url: image_url.clone(),
            },
            ContentItem::OutputText { text } => ContentItem::OutputText { text: text.clone() },
        }
    }
}

impl ResponseItem {
    /// A copy with the same contents as `self`.
    pub fn duplicate(&self) -> (r: Self)
        ensures
            r@ == self@,
    {
        match self {
            ResponseItem::Message { role, content } => {
                let mut copy: Vec<ContentItem> = Vec::new();
                let mut i: usize = 0;
                while i < content.len()
                    invariant
                        i <= content@.len(),
                        copy@ == content@.take(i as int),
                    decreases content.len() - i,
                {
                    copy.push(content[i].duplicate());
                    i = i + 1;
                    assert(copy@ =~= content@.take(i as int));
                }
                assert(content@.take(i as int) =~= content@);
                ResponseItem::Message { role: role.clone(), content: copy }
            },
            ResponseItem::Other => ResponseItem::Other,
        }
    }
}

pub const AGENTS_MD_START_MARKER: &'static str = "# AGENTS.md instructions for ";

pub const AGENTS_MD_END_MARKER: &'static str = "</INSTRUCTIONS>";

pub const ENVIRONMENT_CONTEXT_OPEN_TAG: &'static str = "<environment_context>";

pub const ENVIRONMENT_CONTEXT_CLOSE_TAG: &'static str = "</environment_context>";

pub const SKILL_OPEN_TAG: &'static str = "<skill>";

pub const SKILL_CLOSE_TAG: &'static str = "</skill>";

pub const USER_SHELL_COMMAND_OPEN_TAG: &'static str = "<user_shell_command>";

pub const USER_SHELL_COMMAND_CLOSE_TAG: &'static str = "</user_shell_command>";

pub const TURN_ABORTED_OPEN_TAG: &'static str = "<turn_aborted>";

pub const TURN_ABORTED_CLOSE_TAG: &'static str = "</turn_aborted>";

pub const SUBAGENT_NOTIFICATION_OPEN_TAG: &'static str = "<subagent_notification>";

pub const SUBAGENT_NOTIFICATION_CLOSE_TAG: &'static str = "</subagent_notification>";

/// The start and end markers of each kind of injected context.
pub open spec fn contextual_fragment_markers() -> Seq<(Seq<char>, Seq<char>)> {
    seq![
        (AGENTS_MD_START_MARKER@, AGENTS_MD_END_MARKER@),
        (ENVIRONMENT_CONTEXT_OPEN_TAG@, ENVIRONMENT_CONTEXT_CLOSE_TAG@),
        (SKILL_OPEN_TAG@, SKILL_CLOSE_TAG@),
        (USER_SHELL_COMMAND_OPEN_TAG@, USER_SHELL_COMMAND_CLOSE_TAG@),
        (TURN_ABORTED_OPEN_TAG@, TURN_ABORTED_CLOSE_TAG@),
        (SUBAGENT_NOTIFICATION_OPEN_TAG@, SUBAGENT_NOTIFICATION_CLOSE_TAG@),
    ]
}

/// A character code with ASCII upper case letters lowered.
pub open spec fn ascii_lower(c: char) -> u32 {
    if 65 <= c as u32 <= 90 {
        (c as u32 + 32) as u32
    } else {
        c as u32
    }
}

/// `str::eq_ignore_ascii_case`.
pub open spec fn eq_ignore_ascii_case(a: Seq<char>, b: Seq<char>) -> bool {
    a.len() == b.len() && forall|i: int| 0 <= i < a.len() ==> ascii_lower(a[i]) == ascii_lower(b[i])
}

/// `text` with leading white space removed starts with `start`, and with trailing white
/// space removed too ends with `end`, both compared without regard to ASCII case.
pub open spec fn fragment_matches(text: Seq<char>, start: Seq<char>, end: Seq<char>) -> bool {
    let t = trim_start(text);
    let u = trim_end(t);
    &&& start.len() <= t.len()
    &&& eq_ignore_ascii_case(t.take(start.len() as int), start)
    &&& end.len() <= u.len()
    &&& eq_ignore_ascii_case(u.skip(u.len() - end.len()), end)
}

/// The text is context that the harness injected rather than words of the user.
pub open spec fn is_contextual_text(text: Seq<char>) -> bool {
    exists|k: int|
        0 <= k < contextual_fragment_markers().len() && fragment_matches(
            text,
            #[trigger] contextual_fragment_markers()[k].0,
            contextual_fragment_markers()[k].1,
        )
}

/// Some input text of the content is injected context.
pub open spec fn is_contextual_content(content: Seq<ContentItem>) -> bool {
    exists|i: int|
        0 <= i < content.len() && (#[trigger] content[i] matches ContentItem::InputText { text }
            && is_contextual_text(text@))
}

fn ascii_lower_exec(c: char) -> (r: u32)
    ensures
        r == ascii_lower(c),
{
    let u = c as u32;
    if 65 <= u && u <= 90 {
        u + 32
    } else {
        u
    }
}

/// `a[a_start..a_start + b.len()]` equals `b` without regard to ASCII case.
fn eq_ignore_ascii_case_at(a: &[char], a_start: usize, b: &[char]) -> (r: bool)
    requires
        a_start + b@.len() <= a@.len(),
    ensures
        r == eq_ignore_ascii_case(a@.subrange(a_start as int, a_start + b@.len()), b@),
{
    let n = a.len();
    let mut i: usize = 0;
    while i < b.len()
        invariant
            n == a@.len(),
            a_start + b@.len() <= a@.len(),
            i <= b@.len(),
            forall|k: int| 0 <= k < i ==> ascii_lower(a@[a_start + k]) == ascii_lower(b@[k]),
        decreases b.len() - i,
    {
        if ascii_lower_exec(a[a_start + i]) != ascii_lower_exec(b[i]) {
            assert(a@.subrange(a_start as int, a_start + b@.len())[i as int] == a@[a_start + i]);
            return false;
        }
        i = i + 1;
    }
    assert forall|k: int| 0 <= k < b@.len() implies ascii_lower(
        a@.subrange(a_start as int, a_start + b@.len())[k],
    ) == ascii_lower(b@[k]) by {
        assert(a@.subrange(a_start as int, a_start + b@.len())[k] == a@[a_start + k]);
    }
    true
}

/// Whether `text` is a fragment opened by `start` and closed by `end`.
pub fn fragment_matches_text(text: &[char], start: &[char], end: &[char]) -> (r: bool)
    ensures
        r == fragment_matches(text@, start@, end@),
{
    let (lo, hi) = strip_bounds(text, false);
    let n = text.len();
    let ghost t = trim_start(text@);
    let ghost u = trim_end(t);
    assert(u == text@.subrange(lo as int, hi as int));
    let starts = if start.len() <= n - lo {
        assert(t.take(start@.len() as int) =~= text@.subrange(lo as int, lo + start@.len()));
        eq_ignore_ascii_case_at(text, lo, start)
    } else {
        false
    };
    let ends = if end.len() <= hi - lo {
        assert(u.skip(u.len() - end@.len()) =~= text@.subrange(hi - end@.len(), hi as int));
        eq_ignore_ascii_case_at(text, hi - end.len(), end)
    } else {
        false
    };
    starts && ends
}

/// Whether some input text of `content` is injected context.
pub fn is_contextual_user_message_content(content: &[ContentItem]) -> (r: bool)
    ensures
        r == is_contextual_content(content@),
{
    let markers: Vec<(Vec<char>, Vec<char>)> = vec![
        (chars_of(AGENTS_MD_START_MARKER), chars_of(AGENTS_MD_END_MARKER)),
        (chars_of(ENVIRONMENT_CONTEXT_OPEN_TAG), chars_of(ENVIRONMENT_CONTEXT_CLOSE_TAG)),
        (chars_of(SKILL_OPEN_TAG), chars_of(SKILL_CLOSE_TAG)),
        (chars_of(USER_SHELL_COMMAND_OPEN_TAG), chars_of(USER_SHELL_COMMAND_CLOSE_TAG)),
        (chars_of(TURN_ABORTED_OPEN_TAG), chars_of(TURN_ABORTED_CLOSE_TAG)),
        (chars_of(SUBAGENT_NOTIFICATION_OPEN_TAG), chars_of(SUBAGENT_NOTIFICATION_CLOSE_TAG)),
    ];
    assert(markers@.len() == contextual_fragment_markers().len());
    let mut i: usize = 0;
    while i < content.len()
        invariant
            i <= content@.len(),
            markers@.len() == contextual_fragment_markers().len(),
            forall|k: int|
                0 <= k < markers@.len() ==> (#[trigger] markers@[k]).0@
                    == contextual_fragment_markers()[k].0 && markers@[k].1@
                    == contextual_fragment_markers()[k].1,
            forall|j: int|
                0 <= j < i ==> !(#[trigger] content@[j] matches ContentItem::InputText { text }
                    && is_contextual_text(text@)),
        decreases content.len() - i,
    {
        if let ContentItem::InputText { text } = &content[i] {
            let tv = chars_of(text.as_str());
            let mut k: usize = 0;
            assert(content@[i as int] == ContentItem::InputText { text: *text });
            while k < markers.len()
                invariant
                    i < content@.len(),
                    content@[i as int] == (ContentItem::InputText { text: *text }),
                    k <= markers@.len(),
                    tv@ == text@,
                    markers@.len() == contextual_fragment_markers().len(),
                    forall|m: int|
                        0 <= m < markers@.len() ==> (#[trigger] markers@[m]).0@
                            == contextual_fragment_markers()[m].0 && markers@[m].1@
                            == contextual_fragment_markers()[m].1,
                    forall|m: int|
                        0 <= m < k ==> !fragment_matches(
                            text@,
                            #[trigger] contextual_fragment_markers()[m].0,
                            contextual_fragment_markers()[m].1,
                        ),
                decreases markers.len() - k,
            {
                let (start, end) = &markers[k];
                if fragment_matches_text(tv.as_slice(), start.as_slice(), end.as_slice()) {
                    assert(fragment_matches(
                        text@,
                        contextual_fragment_markers()[k as int].0,
                        contextual_fragment_markers()[k as int].1,
                    ));
                    assert(is_contextual_text(text@));
                    return true;
                }
                k = k + 1;
            }
            assert(!is_contextual_text(text@));
        }
        i = i + 1;
    }
    false
}

} // verus!
