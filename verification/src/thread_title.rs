//! Choosing, cleaning and checking generated thread titles.

use vstd::prelude::*;

use crate::history::{
    is_contextual_content, is_contextual_user_message_content, ResponseItem, ResponseItemView,
};
use crate::text::{
    chars_of, find, find_chars, is_white_space, lacks, lemma_lines_lack_char,
    lemma_lines_lack_newline, lemma_split_on_no_sep, lemma_split_on_nonempty,
    lemma_lines_concat, lemma_split_on_prefix_piece, lemma_strip_both, lemma_trim_strip_cr, lines, lines_of,
    quote_pred, slice_subrange, split_newlines, string_from_chars, strip_bounds, strip_end,
    strip_quote_chars, strip_quotes, strip_start, trim, trim_chars, white_space_pred,
};

verus! {

/// Longest title, in characters, that a generated title keeps whole.
pub const GENERATED_THREAD_TITLE_MAX_LEN: usize = 50;

/// Length, in characters, of a title that was cut (the "..." included).
pub const TRUNCATED_TITLE_LEN: usize = 47;

/// Characters a cut title keeps before its "...".
pub const TRUNCATED_TITLE_KEPT_CHARS: usize = TRUNCATED_TITLE_LEN - 3;

/// Marker that precedes the user's own words in a composed user message.
pub const USER_MESSAGE_BEGIN: &'static str = "## My request for Codex:";

/// The first line that is not blank once trimmed, trimmed; empty if there is none.
pub open spec fn first_nonblank_line(ls: Seq<Seq<char>>) -> Seq<char>
    decreases ls.len(),
{
    if ls.len() == 0 {
        Seq::empty()
    } else if trim(ls[0]).len() > 0 {
        trim(ls[0])
    } else {
        first_nonblank_line(ls.drop_first())
    }
}

/// A thread name: trimmed, and absent when nothing is left.
pub open spec fn normalized_thread_name(name: Seq<char>) -> Option<Seq<char>> {
    let t = trim(name);
    if t.len() == 0 {
        None
    } else {
        Some(t)
    }
}

pub open spec fn ellipsis() -> Seq<char> {
    seq!['.', '.', '.']
}

/// A title longer than the limit is cut to [`TRUNCATED_TITLE_LEN`] characters in all:
/// its first [`TRUNCATED_TITLE_KEPT_CHARS`] characters, then "...".
pub open spec fn truncated_title(title: Seq<char>) -> Seq<char> {
    if title.len() > GENERATED_THREAD_TITLE_MAX_LEN {
        title.take(TRUNCATED_TITLE_KEPT_CHARS as int) + ellipsis()
    } else {
        title
    }
}

/// The title kept from raw model output: its first non-blank line, with surrounding
/// double quotes and white space removed, truncated, then normalized.
pub open spec fn sanitized_thread_title(raw: Seq<char>) -> Option<Seq<char>> {
    let title = trim(strip_quotes(first_nonblank_line(lines(raw))));
    if title.len() == 0 {
        None
    } else {
        normalized_thread_name(truncated_title(title))
    }
}

fn normalize_chars(v: &[char]) -> (r: Option<String>)
    ensures
        r matches Some(s) ==> normalized_thread_name(v@) == Some(s@),
        r is None ==> normalized_thread_name(v@) is None,
{
    let t = trim_chars(v);
    if t.len() == 0 {
        None
    } else {
        Some(string_from_chars(t.as_slice()))
    }
}

/// Trims a thread name; a name that is blank is no name.
pub fn normalize_thread_name(name: &str) -> (r: Option<String>)
    ensures
        r matches Some(s) ==> normalized_thread_name(name@) == Some(s@),
        r is None ==> normalized_thread_name(name@) is None,
{
    let v = chars_of(name);
    normalize_chars(v.as_slice())
}

/// Cleans a title produced by the model: first non-blank line, no surrounding quotes,
/// at most the length limit (longer titles end in "..."), never blank.
pub fn sanitize_generated_thread_title(raw: &str) -> (r: Option<String>)
    ensures
        r matches Some(s) ==> sanitized_thread_title(raw@) == Some(s@),
        r is None ==> sanitized_thread_title(raw@) is None,
{
    let v = chars_of(raw);
    let ls = lines_of(v.as_slice());
    let ghost lv = lines(raw@);
    let mut k: usize = 0;
    let mut first: Vec<char> = Vec::new();
    proof {
        assert(lv.skip(0) =~= lv);
        if lv.len() == 0 {
            assert(first_nonblank_line(lv) == Seq::<char>::empty());
        }
    }
    while k < ls.len()
        invariant_except_break
            first@.len() == 0,
        invariant
            v@ == raw@,
            lv == lines(raw@),
            ls@.len() == lv.len(),
            forall|j: int| 0 <= j < ls@.len() ==> (#[trigger] ls@[j])@ == lv[j],
            k <= ls@.len(),
            first_nonblank_line(lv) == first_nonblank_line(lv.skip(k as int)),
        ensures
            first@ == first_nonblank_line(lv),
        decreases ls.len() - k,
    {
        let t = trim_chars(ls[k].as_slice());
        proof {
            assert(lv.skip(k as int)[0] == lv[k as int]);
            assert(lv.skip(k as int).drop_first() =~= lv.skip(k + 1));
        }
        if t.len() > 0 {
            first = t;
            break;
        }
        k = k + 1;
        proof {
            if k == ls.len() {
                assert(lv.skip(k as int) =~= Seq::<Seq<char>>::empty());
            }
        }
    }
    let unquoted = strip_quote_chars(first.as_slice());
    let title = trim_chars(unquoted.as_slice());
    if title.len() == 0 {
        return None;
    }
    let truncated = if title.len() > GENERATED_THREAD_TITLE_MAX_LEN {
        let mut t = slice_subrange(title.as_slice(), 0, TRUNCATED_TITLE_KEPT_CHARS);
        t.push('.');
        t.push('.');
        t.push('.');
        assert(t@ =~= title@.take(TRUNCATED_TITLE_KEPT_CHARS as int) + ellipsis());
        t
    } else {
        title
    };
    normalize_chars(truncated.as_slice())
}


/// What the user wrote, without any composed preamble before [`USER_MESSAGE_BEGIN`].
pub open spec fn stripped_user_message(text: Seq<char>) -> Seq<char> {
    match find(text, USER_MESSAGE_BEGIN@) {
        Some(i) => trim(text.skip(i + USER_MESSAGE_BEGIN@.len())),
        None => trim(text),
    }
}

/// The user's words in `text`: what follows the first [`USER_MESSAGE_BEGIN`], trimmed,
/// or the whole text trimmed when the marker is absent.
pub fn strip_user_message_prefix(text: &str) -> (r: &str)
    ensures
        r@ == stripped_user_message(text@),
{
    let v = chars_of(text);
    let marker = chars_of(USER_MESSAGE_BEGIN);
    let n = v.len();
    proof {
        crate::text::lemma_find_from_occurs(v@, marker@, 0);
        assert(v@.skip(0) =~= v@);
    }
    let start = match find_chars(v.as_slice(), marker.as_slice()) {
        Some(idx) => {
            assert(crate::text::occurs_at(v@, marker@, idx as int));
            idx + marker.len()
        },
        None => 0,
    };
    let rest = slice_subrange(v.as_slice(), start, v.len());
    let (lo, hi) = strip_bounds(rest.as_slice(), false);
    proof {
        assert(rest@ =~= v@.skip(start as int));
        assert(v@.subrange(start + lo, start + hi) =~= rest@.subrange(lo as int, hi as int));
        assert(rest@.subrange(lo as int, hi as int) == trim(v@.skip(start as int)));
    }
    text.substring_char(start + lo, start + hi)
}


/// Whether a title should be generated: the thread has no name yet and is not a
/// sub-agent's thread.
pub fn should_generate_thread_title(thread_name: &Option<String>, is_sub_agent_session: bool) -> (b:
    bool)
    ensures
        b == (thread_name is None && !is_sub_agent_session),
{
    thread_name.is_none() && !is_sub_agent_session
}

/// One event of the streamed title response, as the title request reads it.
#[derive(Clone, Debug, PartialEq, Eq)]
pub enum TitleStreamEvent {
    /// A piece of output text.
    OutputTextDelta(String),
    /// A finished assistant message, with its text when it has any.
    MessageDone(Option<String>),
    /// The response is complete.
    Completed,
    /// Anything else the stream reports.
    Other,
    /// The stream failed.
    Failed,
}

/// What to do after an event of the title stream.
#[derive(PartialEq, Eq, Structural, Debug, Clone, Copy)]
pub enum TitleStreamStep {
    Continue,
    Finished,
    Failed,
}

/// Folds one stream event into the collected output text.
pub fn apply_title_stream_event(result: &mut String, event: TitleStreamEvent) -> (step:
    TitleStreamStep)
    ensures
        match event {
            TitleStreamEvent::OutputTextDelta(delta) => {
                &&& final(result)@ == old(result)@ + delta@
                &&& step == TitleStreamStep::Continue
            },
            TitleStreamEvent::MessageDone(text) => {
                &&& final(result)@ == (if old(result)@.len() == 0 && text is Some {
                    text->0@
                } else {
                    old(result)@
                })
                &&& step == TitleStreamStep::Continue
            },
            TitleStreamEvent::Completed => final(result)@ == old(result)@ && step
                == TitleStreamStep::Finished,
            TitleStreamEvent::Other => final(result)@ == old(result)@ && step
                == TitleStreamStep::Continue,
            TitleStreamEvent::Failed => final(result)@ == old(result)@ && step
                == TitleStreamStep::Failed,
        },
{
    match event {
        TitleStreamEvent::OutputTextDelta(delta) => {
            result.append(delta.as_str());
            TitleStreamStep::Continue
        },
        TitleStreamEvent::MessageDone(text) => {
            if result.as_str().is_empty() {
                if let Some(text) = text {
                    result.append(text.as_str());
                }
            }
            TitleStreamStep::Continue
        },
        TitleStreamEvent::Completed => TitleStreamStep::Finished,
        TitleStreamEvent::Other => TitleStreamStep::Continue,
        TitleStreamEvent::Failed => TitleStreamStep::Failed,
    }
}

/// The characters of an optional string.
pub open spec fn str_option_view(o: Option<&str>) -> Option<Seq<char>> {
    match o {
        Some(t) => Some(t@),
        None => None,
    }
}

/// The title taken from the response: the `title` field of its JSON form when that
/// sanitizes to a title, else the raw text sanitized.
pub open spec fn generated_title(parsed_title: Option<Seq<char>>, raw: Seq<char>) -> Option<
    Seq<char>,
> {
    match parsed_title {
        Some(t) => match sanitized_thread_title(t) {
            Some(x) => Some(x),
            None => sanitized_thread_title(raw),
        },
        None => sanitized_thread_title(raw),
    }
}

/// Picks the generated title from the response: `parsed_title` is the `title` field of
/// the response read as JSON, when it could be read so.
pub fn generated_thread_title(parsed_title: Option<&str>, raw: &str) -> (r: Option<String>)
    ensures
        r matches Some(s) ==> generated_title(str_option_view(parsed_title), raw@) == Some(
            s@,
        ),
        r is None ==> generated_title(str_option_view(parsed_title), raw@) is None,
{
    let from_json = match parsed_title {
        Some(t) => sanitize_generated_thread_title(t),
        None => None,
    };
    match from_json {
        Some(title) => Some(title),
        None => sanitize_generated_thread_title(raw),
    }
}

/// The title to record, or none when there is no title or it only repeats what the
/// user wrote.
pub open spec fn title_to_persist(
    parsed_title: Option<Seq<char>>,
    raw: Seq<char>,
    user_message_text: Seq<char>,
) -> Option<Seq<char>> {
    match generated_title(parsed_title, raw) {
        Some(t) => if t == stripped_user_message(user_message_text) {
            None
        } else {
            Some(t)
        },
        None => None,
    }
}

/// The generated title to record for a thread whose first message was
/// `user_message_text`.
pub fn thread_title_to_persist(parsed_title: Option<&str>, raw: &str, user_message_text: &str) -> (r:
    Option<String>)
    ensures
        r matches Some(s) ==> title_to_persist(
            str_option_view(parsed_title),
            raw@,
            user_message_text@,
        ) == Some(s@),
        r is None ==> title_to_persist(
            str_option_view(parsed_title),
            raw@,
            user_message_text@,
        ) is None,
{
    match generated_thread_title(parsed_title, raw) {
        Some(title) => {
            let user = strip_user_message_prefix(user_message_text).to_owned();
            if title == user {
                None
            } else {
                Some(title)
            }
        },
        None => None,
    }
}

/// Why a thread name was not recorded.
#[derive(PartialEq, Eq, Structural, Debug, Clone, Copy)]
pub enum ThreadNameError {
    /// The name is blank.
    Empty,
    /// The session keeps no record to write the name to.
    PersistenceDisabled,
}

impl ThreadNameError {
    /// The error's message.
    pub fn message(&self) -> (m: String)
        ensures
            *self == ThreadNameError::Empty ==> m@ == "thread name cannot be empty"@,
            *self == ThreadNameError::PersistenceDisabled ==> m@
                == "session persistence is disabled"@,
    {
        match self {
            ThreadNameError::Empty => String::from_str("thread name cannot be empty"),
            ThreadNameError::PersistenceDisabled => String::from_str(
                "session persistence is disabled",
            ),
        }
    }
}

/// The checks made before a thread name is recorded: the name is normalized first,
/// then the session must keep a record.
pub fn prepare_thread_name(name: &str, persistence_enabled: bool) -> (r: Result<
    String,
    ThreadNameError,
>)
    ensures
        normalized_thread_name(name@) is None ==> r == Err::<String, ThreadNameError>(
            ThreadNameError::Empty,
        ),
        normalized_thread_name(name@) is Some && !persistence_enabled ==> r == Err::<
            String,
            ThreadNameError,
        >(ThreadNameError::PersistenceDisabled),
        normalized_thread_name(name@) is Some && persistence_enabled ==> (r matches Ok(s)
            && normalized_thread_name(name@) == Some(s@)),
{
    let name = match normalize_thread_name(name) {
        Some(name) => name,
        None => return Err(ThreadNameError::Empty),
    };
    if !persistence_enabled {
        return Err(ThreadNameError::PersistenceDisabled);
    }
    Ok(name)
}


/// A message the user wrote: role `user`, and no injected context in its content.
pub open spec fn is_real_user_message(item: ResponseItemView) -> bool {
    item matches ResponseItemView::Message { role, content } && role == "user"@
        && !is_contextual_content(content)
}

/// The views of a sequence of items.
pub open spec fn item_views(items: Seq<ResponseItem>) -> Seq<ResponseItemView> {
    items.map_values(|item: ResponseItem| item@)
}

/// How many of `items` the user wrote.
pub open spec fn real_user_count(items: Seq<ResponseItemView>) -> nat
    decreases items.len(),
{
    if items.len() == 0 {
        0
    } else {
        real_user_count(items.drop_last()) + if is_real_user_message(items.last()) {
            1nat
        } else {
            0nat
        }
    }
}

/// Index of the first item the user wrote.
pub open spec fn first_real_user(items: Seq<ResponseItemView>) -> Option<int>
    decreases items.len(),
{
    if items.len() == 0 {
        None
    } else {
        match first_real_user(items.drop_last()) {
            Some(i) => Some(i),
            None => if is_real_user_message(items.last()) {
                Some(items.len() - 1)
            } else {
                None
            },
        }
    }
}

/// The history a title is generated from: everything up to and including the user's
/// message, when the user has written exactly one.
pub open spec fn title_prompt_prefix(items: Seq<ResponseItemView>) -> Option<
    Seq<ResponseItemView>,
> {
    if real_user_count(items) == 1 {
        Some(items.take(first_real_user(items)->0 + 1))
    } else {
        None
    }
}

proof fn lemma_first_real_user_bounded(items: Seq<ResponseItemView>)
    ensures
        first_real_user(items) matches Some(i) ==> 0 <= i < items.len(),
        first_real_user(items) is None <==> real_user_count(items) == 0,
    decreases items.len(),
{
    if items.len() > 0 {
        lemma_first_real_user_bounded(items.drop_last());
    }
}

/// How many items of the history a title is generated from: up to and including the
/// first message the user wrote, provided the user has written exactly one message.
pub fn title_prompt_input_len(items: &[ResponseItem]) -> (r: Option<usize>)
    ensures
        match title_prompt_prefix(item_views(items@)) {
            Some(p) => r matches Some(n) && n == p.len(),
            None => r is None,
        },
        r matches Some(n) ==> 0 < n <= items@.len(),
{
    let ghost views = item_views(items@);
    let user = String::from_str("user");
    let mut first_user_index: Option<usize> = None;
    let mut user_message_count: usize = 0;
    let mut idx: usize = 0;
    proof {
        assert(views.take(0) =~= Seq::<ResponseItemView>::empty());
    }
    while idx < items.len()
        invariant
            idx <= items@.len(),
            views == item_views(items@),
            user@ == "user"@,
            user_message_count <= idx,
            user_message_count == real_user_count(views.take(idx as int)),
            first_user_index matches Some(f) ==> first_real_user(views.take(idx as int)) == Some(
                f as int,
            ),
            first_user_index is None ==> first_real_user(views.take(idx as int)) is None,
        decreases items.len() - idx,
    {
        let user_wrote = match &items[idx] {
            ResponseItem::Message { role, content } => {
                let is_user = *role == user;
                is_user && !is_contextual_user_message_content(content.as_slice())
            },
            ResponseItem::Other => false,
        };
        proof {
            assert(views.take(idx + 1).drop_last() =~= views.take(idx as int));
            assert(views.take(idx + 1).last() == items@[idx as int]@);
            assert(user_wrote == is_real_user_message(items@[idx as int]@));
        }
        if user_wrote {
            user_message_count = user_message_count + 1;
            if first_user_index.is_none() {
                first_user_index = Some(idx);
            }
        }
        idx = idx + 1;
    }
    proof {
        assert(views.take(idx as int) =~= views);
        lemma_first_real_user_bounded(views);
    }
    let first = match first_user_index {
        Some(f) => f,
        None => return None,
    };
    if user_message_count != 1 {
        return None;
    }
    Some(first + 1)
}

/// The start of the history to generate a title from: up to and including the first
/// message the user wrote, provided the user has written exactly one message.
pub fn title_prompt_input(items: &[ResponseItem]) -> (r: Option<Vec<ResponseItem>>)
    ensures
        match title_prompt_prefix(item_views(items@)) {
            Some(p) => r matches Some(v) && item_views(v@) == p,
            None => r is None,
        },
{
    let ghost views = item_views(items@);
    let end = match title_prompt_input_len(items) {
        Some(end) => end,
        None => return None,
    };
    let first = end - 1;
    proof {
        lemma_first_real_user_bounded(views);
        assert(title_prompt_prefix(views) is Some);
        let f = first_real_user(views)->0;
        assert(real_user_count(views) == 1);
        assert(first_real_user(views) is Some);
        assert(0 <= f < views.len());
        assert(views.take(f + 1).len() == f + 1);
        assert(end == f + 1);
    }
    let mut prefix: Vec<ResponseItem> = Vec::new();
    let mut k: usize = 0;
    while k <= first
        invariant
            first < items@.len(),
            views == item_views(items@),
            k <= first + 1,
            prefix@.len() == k,
            item_views(prefix@) == views.take(k as int),
        decreases first + 1 - k,
    {
        let ghost before = prefix@;
        let item = items[k].duplicate();
        prefix.push(item);
        k = k + 1;
        assert forall|j: int| 0 <= j < k implies item_views(prefix@)[j] == views[j] by {
            if j < k - 1 {
                assert(prefix@[j] == before[j]);
                assert(item_views(before)[j] == views.take(k - 1)[j]);
            }
        }
        assert(item_views(prefix@) =~= views.take(k as int));
    }
    Some(prefix)
}


/// The text a title is cut from: the first non-blank line, unquoted and trimmed.
pub open spec fn title_candidate(raw: Seq<char>) -> Seq<char> {
    trim(strip_quotes(first_nonblank_line(lines(raw))))
}

proof fn lemma_first_nonblank_lacks(ls: Seq<Seq<char>>, c: char)
    requires
        forall|k: int| 0 <= k < ls.len() ==> lacks(#[trigger] ls[k], c),
    ensures
        lacks(first_nonblank_line(ls), c),
    decreases ls.len(),
{
    if ls.len() > 0 {
        lemma_strip_both(ls[0], white_space_pred());
        assert(lacks(ls[0], c));
        if trim(ls[0]).len() == 0 {
            assert forall|k: int| 0 <= k < ls.drop_first().len() implies lacks(
                #[trigger] ls.drop_first()[k],
                c,
            ) by {
                assert(ls.drop_first()[k] == ls[k + 1]);
            }
            lemma_first_nonblank_lacks(ls.drop_first(), c);
        }
    }
}

proof fn lemma_title_candidate(raw: Seq<char>)
    ensures
        lacks(title_candidate(raw), '\n'),
        trim(title_candidate(raw)) == title_candidate(raw),
        title_candidate(raw).len() > 0 ==> !is_white_space(title_candidate(raw)[0])
            && !is_white_space(title_candidate(raw).last()),
{
    let f = first_nonblank_line(lines(raw));
    lemma_lines_lack_newline(raw);
    lemma_first_nonblank_lacks(lines(raw), '\n');
    lemma_strip_both(f, quote_pred());
    lemma_strip_both(strip_quotes(f), white_space_pred());
}

/// A sequence that neither starts nor ends with white space is its own trim.
proof fn lemma_trim_fixed(t: Seq<char>)
    requires
        t.len() > 0,
        !is_white_space(t[0]),
        !is_white_space(t.last()),
    ensures
        trim(t) == t,
{
    assert(strip_start(t, white_space_pred()) == t);
    assert(strip_end(t, white_space_pred()) == t);
}

/// A generated title is never blank, is at most the length limit, is a single line,
/// and has no white space at either end.
pub proof fn law_sanitized_title_shape(raw: Seq<char>)
    ensures
        sanitized_thread_title(raw) matches Some(t) ==> {
            &&& 0 < t.len() <= GENERATED_THREAD_TITLE_MAX_LEN
            &&& lacks(t, '\n')
            &&& trim(t) == t
        },
{
    let title = title_candidate(raw);
    lemma_title_candidate(raw);
    if title.len() > 0 {
        let cut = truncated_title(title);
        if title.len() > GENERATED_THREAD_TITLE_MAX_LEN {
            assert(lacks(cut, '\n')) by {
                assert forall|i: int| 0 <= i < cut.len() implies cut[i] != '\n' by {
                    if i < TRUNCATED_TITLE_KEPT_CHARS {
                        assert(cut[i] == title[i]);
                    }
                }
            }
        }
        lemma_strip_both(cut, white_space_pred());
    }
}

/// A candidate title within the length limit is kept as it is.
pub proof fn law_short_title_kept(raw: Seq<char>)
    requires
        0 < title_candidate(raw).len() <= GENERATED_THREAD_TITLE_MAX_LEN,
    ensures
        sanitized_thread_title(raw) == Some(title_candidate(raw)),
{
    lemma_title_candidate(raw);
}

/// A candidate title over the length limit is cut to [`TRUNCATED_TITLE_LEN`]
/// characters, the last three of which are "...".
pub proof fn law_long_title_truncated(raw: Seq<char>)
    requires
        title_candidate(raw).len() > GENERATED_THREAD_TITLE_MAX_LEN,
    ensures
        sanitized_thread_title(raw) == Some(
            title_candidate(raw).take(TRUNCATED_TITLE_KEPT_CHARS as int) + ellipsis(),
        ),
        sanitized_thread_title(raw)->0.len() == TRUNCATED_TITLE_LEN,
{
    let title = title_candidate(raw);
    lemma_title_candidate(raw);
    let cut = title.take(TRUNCATED_TITLE_KEPT_CHARS as int) + ellipsis();
    assert(cut[0] == title[0]);
    assert(cut.last() == '.');
    lemma_trim_fixed(cut);
}


proof fn lemma_first_real_user(items: Seq<ResponseItemView>)
    ensures
        first_real_user(items) matches Some(i) ==> 0 <= i < items.len()
            && is_real_user_message(items[i]) && forall|j: int|
            0 <= j < i ==> !is_real_user_message(#[trigger] items[j]),
    decreases items.len(),
{
    if items.len() > 0 {
        let t = items.drop_last();
        lemma_first_real_user(t);
        lemma_first_real_user_bounded(t);
        if first_real_user(t) is None {
            assert forall|j: int| 0 <= j < items.len() - 1 implies !is_real_user_message(
                #[trigger] items[j],
            ) by {
                lemma_no_real_user(t, j);
                assert(t[j] == items[j]);
            }
        } else {
            let i = first_real_user(t)->0;
            assert forall|j: int| 0 <= j < i implies !is_real_user_message(#[trigger] items[j]) by {
                assert(t[j] == items[j]);
            }
            assert(t[i] == items[i]);
        }
    }
}

proof fn lemma_no_real_user(items: Seq<ResponseItemView>, j: int)
    requires
        real_user_count(items) == 0,
        0 <= j < items.len(),
    ensures
        !is_real_user_message(items[j]),
    decreases items.len(),
{
    if j < items.len() - 1 {
        lemma_no_real_user(items.drop_last(), j);
        assert(items.drop_last()[j] == items[j]);
    }
}

/// The history a title is generated from ends with the one message the user wrote, and
/// holds no other.
pub proof fn law_title_prompt_ends_with_user_message(items: Seq<ResponseItemView>)
    ensures
        title_prompt_prefix(items) matches Some(p) ==> {
            &&& p.len() >= 1
            &&& is_real_user_message(p.last())
            &&& forall|j: int| 0 <= j < p.len() - 1 ==> !is_real_user_message(#[trigger] p[j])
        },
{
    lemma_first_real_user(items);
    lemma_first_real_user_bounded(items);
    if let Some(p) = title_prompt_prefix(items) {
        let i = first_real_user(items)->0;
        assert(p.last() == items[i]);
        assert forall|j: int| 0 <= j < p.len() - 1 implies !is_real_user_message(#[trigger] p[j]) by {
            assert(p[j] == items[j]);
        }
    }
}

/// A title that only repeats what the user wrote is never recorded.
pub proof fn law_title_differs_from_user_text(
    parsed_title: Option<Seq<char>>,
    raw: Seq<char>,
    user_message_text: Seq<char>,
)
    ensures
        title_to_persist(parsed_title, raw, user_message_text) matches Some(t) ==> t
            != stripped_user_message(user_message_text),
{
}


/// A character that the raw text lacks (other than the `.` of "...") is not in its
/// sanitized title either.
proof fn lemma_sanitized_lacks(raw: Seq<char>, c: char)
    requires
        lacks(raw, c),
        c != '.',
    ensures
        sanitized_thread_title(raw) matches Some(t) ==> lacks(t, c),
{
    let f = first_nonblank_line(lines(raw));
    lemma_lines_lack_char(raw, c);
    lemma_first_nonblank_lacks(lines(raw), c);
    lemma_strip_both(f, quote_pred());
    lemma_strip_both(strip_quotes(f), white_space_pred());
    let title = title_candidate(raw);
    if title.len() > 0 {
        let cut = truncated_title(title);
        assert(lacks(cut, c)) by {
            assert forall|i: int| 0 <= i < cut.len() implies cut[i] != c by {
                if title.len() > GENERATED_THREAD_TITLE_MAX_LEN && i < TRUNCATED_TITLE_KEPT_CHARS {
                    assert(cut[i] == title[i]);
                }
            }
        }
        lemma_strip_both(cut, white_space_pred());
    }
}

/// The lines of a non-empty text without a newline are that text alone.
proof fn lemma_single_line(l: Seq<char>)
    requires
        lacks(l, '\n'),
        l.len() > 0,
    ensures
        lines(l) == seq![l],
{
    lemma_split_on_no_sep(l, '\n');
    assert(lines(l) =~= seq![l]);
}

/// Only the first line that is not blank matters to the title: whatever follows it
/// changes nothing.
pub proof fn law_first_nonblank_line_decides(first: Seq<char>, rest: Seq<char>)
    requires
        lacks(first, '\n'),
        trim(first).len() > 0,
    ensures
        sanitized_thread_title(first + seq!['\n'] + rest) == sanitized_thread_title(first),
{
    lemma_strip_both(first, white_space_pred());
    lemma_single_line(first);
    let x = first + seq!['\n'] + rest;
    lemma_split_on_prefix_piece(first, rest, '\n');
    lemma_split_on_nonempty(rest, '\n');
    let p = split_newlines(x);
    assert(p.len() >= 2);
    assert(lines(x)[0] == crate::text::strip_cr(first));
    lemma_trim_strip_cr(first);
    assert(first_nonblank_line(lines(x)) == trim(first));
    assert(first_nonblank_line(lines(first)) == trim(first));
}

/// A sanitized title of a text without double quotes sanitizes to itself.
pub proof fn law_sanitized_title_fixed_point(raw: Seq<char>)
    requires
        lacks(raw, '"'),
    ensures
        sanitized_thread_title(raw) matches Some(t) ==> sanitized_thread_title(t) == Some(t),
{
    law_sanitized_title_shape(raw);
    lemma_sanitized_lacks(raw, '"');
    if let Some(t) = sanitized_thread_title(raw) {
        lemma_single_line(t);
        assert(first_nonblank_line(lines(t)) == t);
        assert(strip_start(t, quote_pred()) == t);
        assert(strip_end(t, quote_pred()) == t);
        assert(strip_quotes(t) == t);
        assert(title_candidate(t) == t);
        law_short_title_kept(t);
    }
}


/// The title picked from a response is the JSON title, sanitized, when that gives one,
/// and the raw text sanitized otherwise; either way it is never blank, at most the
/// length limit, a single line, and trimmed.
pub proof fn law_generated_title(parsed_title: Option<Seq<char>>, raw: Seq<char>)
    ensures
        parsed_title matches Some(p) ==> (sanitized_thread_title(p) is Some ==> generated_title(
            parsed_title,
            raw,
        ) == sanitized_thread_title(p)),
        parsed_title is None || sanitized_thread_title(parsed_title->0) is None
            ==> generated_title(parsed_title, raw) == sanitized_thread_title(raw),
        generated_title(parsed_title, raw) matches Some(t) ==> {
            &&& 0 < t.len() <= GENERATED_THREAD_TITLE_MAX_LEN
            &&& lacks(t, '\n')
            &&& trim(t) == t
        },
{
    law_sanitized_title_shape(raw);
    if let Some(p) = parsed_title {
        law_sanitized_title_shape(p);
    }
}

/// Lines that are blank before the title make no difference to it.
pub proof fn law_leading_blank_line_ignored(blank: Seq<char>, rest: Seq<char>)
    requires
        lacks(blank, '\n'),
        trim(blank).len() == 0,
    ensures
        sanitized_thread_title(blank + seq!['\n'] + rest) == sanitized_thread_title(rest),
{
    let head = blank + seq!['\n'];
    lemma_lines_concat(head, rest);
    lemma_split_on_prefix_piece(blank, Seq::<char>::empty(), '\n');
    assert(head + Seq::<char>::empty() =~= head);
    assert(split_newlines(Seq::<char>::empty()) =~= seq![Seq::<char>::empty()]);
    assert(split_newlines(head) =~= seq![blank, Seq::<char>::empty()]);
    assert(lines(head) =~= seq![crate::text::strip_cr(blank)]);
    lemma_trim_strip_cr(blank);
    let all = lines(head + rest);
    assert(all == seq![crate::text::strip_cr(blank)] + lines(rest));
    assert(all.drop_first() =~= lines(rest));
    assert(all[0] == crate::text::strip_cr(blank));
    assert(first_nonblank_line(all) == first_nonblank_line(lines(rest)));
}

/// A generated title is dropped only when it is exactly what the user wrote (after the
/// composed preamble); any other title is recorded, and without a title nothing is.
pub proof fn law_title_dropped_only_when_repeating_user(
    parsed_title: Option<Seq<char>>,
    raw: Seq<char>,
    user_message_text: Seq<char>,
)
    ensures
        generated_title(parsed_title, raw) matches Some(t) ==> (t != stripped_user_message(
            user_message_text,
        ) ==> title_to_persist(parsed_title, raw, user_message_text) == Some(t)),
        generated_title(parsed_title, raw) matches Some(t) ==> (t == stripped_user_message(
            user_message_text,
        ) ==> title_to_persist(parsed_title, raw, user_message_text) is None),
        generated_title(parsed_title, raw) is None ==> title_to_persist(
            parsed_title,
            raw,
            user_message_text,
        ) is None,
{
}


/// Exactly one of `items` is a message the user wrote.
pub open spec fn exactly_one_real_user_message(items: Seq<ResponseItemView>) -> bool {
    exists|i: int|
        0 <= i < items.len() && is_real_user_message(#[trigger] items[i]) && forall|j: int|
            0 <= j < items.len() && j != i ==> !is_real_user_message(#[trigger] items[j])
}

proof fn lemma_real_user_count_one(items: Seq<ResponseItemView>)
    ensures
        real_user_count(items) == 1 <==> exactly_one_real_user_message(items),
        real_user_count(items) == 0 <==> forall|j: int|
            0 <= j < items.len() ==> !is_real_user_message(#[trigger] items[j]),
    decreases items.len(),
{
    if items.len() > 0 {
        let t = items.drop_last();
        let n = items.len() - 1;
        lemma_real_user_count_one(t);
        assert forall|j: int| 0 <= j < n implies items[j] == #[trigger] t[j] by {}
        if real_user_count(items) == 1 {
            if is_real_user_message(items[n]) {
                assert forall|j: int| 0 <= j < items.len() && j != n implies !is_real_user_message(
                    #[trigger] items[j],
                ) by {
                    assert(t[j] == items[j]);
                }
            } else {
                let i = choose|i: int|
                    0 <= i < t.len() && is_real_user_message(#[trigger] t[i]) && forall|j: int|
                        0 <= j < t.len() && j != i ==> !is_real_user_message(#[trigger] t[j]);
                assert(items[i] == t[i]);
                assert forall|j: int| 0 <= j < items.len() && j != i implies !is_real_user_message(
                    #[trigger] items[j],
                ) by {
                    if j < n {
                        assert(t[j] == items[j]);
                    }
                }
            }
        }
        if exactly_one_real_user_message(items) {
            let i = choose|i: int|
                0 <= i < items.len() && is_real_user_message(#[trigger] items[i]) && forall|j: int|
                    0 <= j < items.len() && j != i ==> !is_real_user_message(#[trigger] items[j]);
            if i == n {
                assert forall|j: int| 0 <= j < t.len() implies !is_real_user_message(
                    #[trigger] t[j],
                ) by {
                    assert(t[j] == items[j]);
                }
            } else {
                assert(t[i] == items[i]);
                assert forall|j: int| 0 <= j < t.len() && j != i implies !is_real_user_message(
                    #[trigger] t[j],
                ) by {
                    assert(t[j] == items[j]);
                }
                assert(exactly_one_real_user_message(t));
            }
        }
        if forall|j: int| 0 <= j < items.len() ==> !is_real_user_message(#[trigger] items[j]) {
            assert forall|j: int| 0 <= j < t.len() implies !is_real_user_message(#[trigger] t[j]) by {
                assert(t[j] == items[j]);
            }
        }
        if real_user_count(items) == 0 {
            assert forall|j: int| 0 <= j < items.len() implies !is_real_user_message(
                #[trigger] items[j],
            ) by {
                if j < n {
                    assert(t[j] == items[j]);
                }
            }
        }
    }
}

/// A title is generated only when the user has written exactly one message; the history
/// used then runs up to and including that message, and no message the user wrote
/// follows it.
pub proof fn law_title_prompt_exactly_one_user_message(items: Seq<ResponseItemView>)
    ensures
        title_prompt_prefix(items) is Some <==> exactly_one_real_user_message(items),
        title_prompt_prefix(items) matches Some(p) ==> {
            &&& 0 < p.len() <= items.len()
            &&& p == items.take(p.len() as int)
            &&& is_real_user_message(p.last())
            &&& forall|j: int| 0 <= j < items.len() && j != p.len() - 1 ==> !is_real_user_message(
                #[trigger] items[j],
            )
        },
{
    lemma_real_user_count_one(items);
    lemma_first_real_user(items);
    lemma_first_real_user_bounded(items);
    if let Some(p) = title_prompt_prefix(items) {
        let f = first_real_user(items)->0;
        assert(p.last() == items[f]);
        let i = choose|i: int|
            0 <= i < items.len() && is_real_user_message(#[trigger] items[i]) && forall|j: int|
                0 <= j < items.len() && j != i ==> !is_real_user_message(#[trigger] items[j]);
        assert(i == f);
    }
}

} // verus!
