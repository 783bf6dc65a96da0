//! Translating a whole song with a language model.
//!
//! A reply that slipped a line would put every later translation under the wrong lyric
//! with nothing to say so. [`place`] therefore checks the numbering, so that nothing is
//! dropped, repeated or invented, and the echo: each entry copies out the line it
//! translates, and the copy is compared with what was sent.

use vstd::prelude::*;

use crate::assoc::TextMap;
use crate::json;
use crate::text;

verus! {

/// The standing instructions up to the first mention of the language.
pub const SYSTEM_HEAD: &'static str = "You translate song lyrics into ";

/// The instructions between the two mentions of the language.
pub const SYSTEM_MIDDLE: &'static str = ". Every `text` you write is in
";

/// The instructions behind the second mention of the language.
pub const SYSTEM_TAIL: &'static str = ", whatever language the lyrics themselves are in.

You are given the whole song at once, so use it: read every line before
translating any of them.

Alignment. Both are checked on the way back in, and a reply that fails either
is discarded whole:
- Return exactly one entry per line you are given — every index, each once, in
  ascending order. None omitted, none invented.
- Copy the line into `source` character for character before translating it,
  then put the translation in `text`. The copy is compared against the line
  that was sent, so a `text` belonging to a different line is caught.

Never merge two lines into one entry, and never split one line across two.
Every line that carries words gets a translation; only a marker — `[Chorus]`,
`(instrumental)`, a bare `♪` — gets an empty `text`.

Lyric lines break on singing breath, not on grammar: one sentence often runs
across two or three lines. Translate the sentence as a whole, then distribute
its meaning across the same lines it occupied — each line carrying the part
that belongs to it, so the lines read in order as the sentence does and each
line's own words stay on that line.

Keep connectives and contrast markers. If a line ends in one — \"but\", \"though\",
\"because\", \"and yet\" — that line's translation carries it too. Distributing a
sentence across lines must not drop the word that joins them.

Translate the imagery, not the idiom. Keep the register of the original: if it
is plain, stay plain. Do not add interpretation the source does not carry, and
do not explain the metaphor.";

/// The tokens a reply may take for each line, and the bounds of the sum.
pub const TOKENS_PER_LINE: u64 = 200;

pub const MIN_TOKENS: u64 = 8192;

pub const MAX_TOKENS: u64 = 32000;

/// The model to ask, and the key to ask it with.
#[derive(Debug)]
pub struct Ai {
    pub model: String,
    pub api_key: String,
}

// ── what is sent ─────────────────────────────────────────────────────────────

/// The lines to send: trimmed, without blanks, each once, in order of first appearance.
pub open spec fn sent(lines: Seq<Seq<char>>) -> Seq<Seq<char>>
    decreases lines.len(),
{
    if lines.len() == 0 {
        Seq::empty()
    } else {
        let front = sent(lines.drop_last());
        let t = text::trimmed(lines.last());
        if t.len() == 0 || front.contains(t) {
            front
        } else {
            front.push(t)
        }
    }
}

/// Whether `seen` says where each line stands in `order`, and knows no other.
pub open spec fn locates(seen: Map<Seq<char>, usize>, order: Seq<Seq<char>>) -> bool {
    &&& forall|k: Seq<char>|
        #![trigger seen.contains_key(k)]
        seen.contains_key(k) <==> order.contains(k)
    &&& forall|k: Seq<char>| #[trigger]
        seen.contains_key(k) ==> seen[k] < order.len() && order[seen[k] as int] == k
}

/// No line is sent twice, none is blank, and every line with words is sent.
pub proof fn nothing_is_sent_twice(lines: Seq<Seq<char>>)
    ensures
        sent(lines).no_duplicates(),
        forall|i: int| 0 <= i < sent(lines).len() ==> (#[trigger] sent(lines)[i]).len() > 0,
        forall|i: int|
            0 <= i < lines.len() && text::trimmed(lines[i]).len() > 0 ==> sent(lines).contains(
                #[trigger] text::trimmed(lines[i]),
            ),
        sent(lines).len() <= lines.len(),
    decreases lines.len(),
{
    if lines.len() > 0 {
        let p = lines.drop_last();
        nothing_is_sent_twice(p);
        let front = sent(p);
        let all = sent(lines);
        assert forall|i: int|
            0 <= i < lines.len() && text::trimmed(lines[i]).len() > 0 implies all.contains(
            #[trigger] text::trimmed(lines[i]),
        ) by {
            let t = text::trimmed(lines[i]);
            if i < p.len() {
                assert(p[i] == lines[i]);
                assert(front.contains(text::trimmed(p[i])));
                let k = choose|k: int| 0 <= k < front.len() && front[k] == t;
                assert(all[k] == t);
            } else if !front.contains(t) {
                assert(all[front.len() as int] == t);
            }
        }
    }
}

/// The lines to send, and where each stands among them.
pub fn distinct(lines: &[String]) -> (r: (Vec<String>, TextMap<usize>))
    ensures
        text::texts(r.0@) == sent(text::texts(lines@)),
        locates(r.1@, text::texts(r.0@)),
{
    let ghost vs = text::texts(lines@);
    let mut order: Vec<String> = Vec::new();
    let mut seen: TextMap<usize> = TextMap::new();
    let mut i: usize = 0;
    assert(text::texts(order@) =~= sent(vs.take(0)));
    while i < lines.len()
        invariant
            i <= lines@.len(),
            vs == text::texts(lines@),
            text::texts(order@) == sent(vs.take(i as int)),
            locates(seen@, text::texts(order@)),
        decreases lines@.len() - i,
    {
        assert(vs.take(i + 1).drop_last() == vs.take(i as int));
        assert(vs[i as int] == lines@[i as int]@);
        let cs = text::chars_of(lines[i].as_str());
        let t = text::string_of(text::trim(cs.as_slice()));
        let ghost front = text::texts(order@);
        let ghost known = seen@;
        if !t.as_str().is_empty() && !seen.contains_key(t.as_str()) {
            let n: usize = order.len();
            seen.insert(t.clone(), n);
            order.push(t);
            proof {
                let now = text::texts(order@);
                assert(now =~= front.push(t@));
                assert forall|k: Seq<char>| #[trigger] seen@.contains_key(k) <==> now.contains(k) by {
                    if k == t@ {
                        assert(now[n as int] == k);
                    } else {
                        assert(seen@.contains_key(k) == known.contains_key(k));
                        if front.contains(k) {
                            let j = choose|j: int| 0 <= j < front.len() && front[j] == k;
                            assert(now[j] == k);
                        }
                        if now.contains(k) {
                            let j = choose|j: int| 0 <= j < now.len() && now[j] == k;
                            assert(front[j] == k);
                        }
                    }
                }
                assert forall|k: Seq<char>| #[trigger] seen@.contains_key(k) implies seen@[k]
                    < now.len() && now[seen@[k] as int] == k by {
                    if k != t@ {
                        assert(known.contains_key(k));
                    }
                }
            }
        }
        i += 1;
    }
    assert(vs.take(vs.len() as int) == vs);
    (order, seen)
}

/// The lines behind their numbers, a tab between, one to a row.
pub open spec fn numbered(order: Seq<Seq<char>>) -> Seq<char>
    decreases order.len(),
{
    if order.len() == 0 {
        Seq::empty()
    } else {
        let n = (order.len() - 1) as nat;
        let row = text::decimal(n) + "\t"@ + order.last();
        if n == 0 {
            row
        } else {
            numbered(order.drop_last()) + "\n"@ + row
        }
    }
}

/// The instructions for a language.
pub open spec fn system_text(target: Seq<char>) -> Seq<char> {
    SYSTEM_HEAD@ + target + SYSTEM_MIDDLE@ + target + SYSTEM_TAIL@
}

/// The song as it is sent. The count stands next to the lines, where it has to hold.
pub open spec fn user_text(order: Seq<Seq<char>>) -> Seq<char> {
    text::decimal(order.len()) + " lines, numbered 0 to "@ + text::decimal(
        (order.len() - 1) as nat,
    ) + ". Return exactly "@ + text::decimal(order.len()) + " entries.\n\n<lines>\n"@ + numbered(
        order,
    ) + "\n</lines>"@
}

/// The limit on the reply.
pub open spec fn token_limit(n: nat) -> nat {
    let want = n * TOKENS_PER_LINE as nat;
    if want < MIN_TOKENS {
        MIN_TOKENS as nat
    } else if want > MAX_TOKENS {
        MAX_TOKENS as nat
    } else {
        want
    }
}

/// One request for a whole song.
#[derive(Debug)]
pub struct Prompt {
    pub system: String,
    pub user: String,
    pub max_tokens: u64,
}

fn number_rows(order: &[String]) -> (r: String)
    ensures
        r@ == numbered(text::texts(order@)),
{
    let ghost vs = text::texts(order@);
    let mut out = String::new();
    let mut i: usize = 0;
    while i < order.len()
        invariant
            i <= order@.len(),
            vs == text::texts(order@),
            out@ == numbered(vs.take(i as int)),
        decreases order@.len() - i,
    {
        let ghost before = out@;
        if i > 0 {
            out.append("\n");
        }
        out.append(text::show(i as u64).as_str());
        out.append("\t");
        out.append(order[i].as_str());
        proof {
            let t = vs.take(i + 1);
            let row = text::decimal(i as nat) + "\t"@ + vs[i as int];
            assert(t.drop_last() == vs.take(i as int));
            assert(t.last() == order@[i as int]@);
            if i == 0 {
                assert(out@ =~= row);
            } else {
                assert(out@ =~= before + "\n"@ + row);
            }
        }
        i += 1;
    }
    assert(vs.take(vs.len() as int) == vs);
    out
}

/// The request for lines that are sent; `None` where there are none.
pub fn prompt(order: &[String], target: &str) -> (r: Option<Prompt>)
    ensures
        match r {
            Some(p) => order@.len() > 0 && p.system@ == system_text(target@) && p.user@
                == user_text(text::texts(order@)) && p.max_tokens == token_limit(order@.len()),
            None => order@.len() == 0,
        },
{
    let n: usize = order.len();
    if n == 0 {
        return None;
    }
    let mut system = SYSTEM_HEAD.to_owned();
    system.append(target);
    system.append(SYSTEM_MIDDLE);
    system.append(target);
    system.append(SYSTEM_TAIL);
    let count = text::show(n as u64);
    let mut user = count.clone();
    user.append(" lines, numbered 0 to ");
    user.append(text::show(n as u64 - 1).as_str());
    user.append(". Return exactly ");
    user.append(count.as_str());
    user.append(" entries.\n\n<lines>\n");
    user.append(number_rows(order).as_str());
    user.append("\n</lines>");
    let max_tokens: u64 = if n >= 160 {
        MAX_TOKENS
    } else {
        let want: u64 = n as u64 * TOKENS_PER_LINE;
        if want < MIN_TOKENS {
            MIN_TOKENS
        } else {
            want
        }
    };
    Some(Prompt { system, user, max_tokens })
}

// ── what comes back ──────────────────────────────────────────────────────────

/// The first `n` characters of a text.
pub open spec fn head(s: Seq<char>, n: int) -> Seq<char> {
    if s.len() <= n {
        s
    } else {
        s.take(n)
    }
}

fn take_head(s: &str, n: usize) -> (r: String)
    ensures
        r@ == head(s@, n as int),
{
    let cs = text::chars_of(s);
    if cs.len() <= n {
        return text::string_of(cs.as_slice());
    }
    assert(s@.take(n as int) == s@.subrange(0, n as int));
    text::string_of(&cs.as_slice()[0..n])
}

/// What is shown of a failed request: the message, or the start of the body.
pub open spec fn error_shown(message: Option<Seq<char>>, body: Seq<char>) -> Seq<char> {
    match message {
        Some(m) => m,
        None => head(body, 200),
    }
}

/// What is shown of a failed request whose body has this message, if any.
pub fn error_text(message: Option<String>, body: &str) -> (r: String)
    ensures
        r@ == error_shown(text::opt(message), body@),
{
    match message {
        Some(m) => m,
        None => take_head(body, 200),
    }
}

/// What is shown of a failed request: the service's own message, or the start of a body
/// that has none.
pub fn api_error(body: &str) -> (r: String)
    ensures
        r@ == error_shown(json::json_text(body@, "/error/message"@), body@),
{
    error_text(json::json_text_at(body, "/error/message"), body)
}

/// What a refused request is answered: the status and what is shown of it.
pub fn refusal(status: &str, body: &str) -> (r: String)
    ensures
        r@ == status@ + ": "@ + error_shown(json::json_text(body@, "/error/message"@), body@),
{
    let start = text::concat(status, ": ");
    text::concat(start.as_str(), api_error(body).as_str())
}

/// The pointer to a field of a block of the reply.
pub open spec fn block_field(i: nat, field: Seq<char>) -> Seq<char> {
    "/content/"@ + text::decimal(i) + field
}

/// The first block at or after `i` of `n` whose kind is text.
pub open spec fn text_block(body: Seq<char>, i: int, n: int) -> Option<int>
    decreases n - i,
{
    if i < 0 || i >= n {
        None
    } else if json::json_text(body, block_field(i as nat, "/type"@)) == Some("text"@) {
        Some(i)
    } else {
        text_block(body, i + 1, n)
    }
}

/// What a reply says: an error where it is no JSON, where the model declined, where it
/// was cut off, or where it has no text block; else the text of the first.
pub open spec fn reply_said(body: Seq<char>) -> Result<Seq<char>, Seq<char>> {
    let none = Err("no text block in the reply"@);
    match json::json_fault(body) {
        Some(e) => Err(e),
        None => if json::json_text(body, "/stop_reason"@) == Some("refusal"@) {
            Err("the model declined this request"@)
        } else if json::json_text(body, "/stop_reason"@) == Some("max_tokens"@) {
            Err("reply was truncated"@)
        } else {
            match json::json_items(body, "/content"@) {
                Some(n) => match text_block(body, 0, n as int) {
                    Some(i) => match json::json_text(body, block_field(i as nat, "/text"@)) {
                        Some(t) => Ok(t),
                        None => none,
                    },
                    None => none,
                },
                None => none,
            }
        },
    }
}

/// The content of a text or an error.
pub open spec fn said(r: Result<String, String>) -> Result<Seq<char>, Seq<char>> {
    match r {
        Ok(t) => Ok(t@),
        Err(e) => Err(e@),
    }
}

fn is_text(s: &Option<String>, want: &str) -> (r: bool)
    ensures
        r == (text::opt(*s) == Some(want@)),
{
    match s {
        Some(x) => text::same_str(x.as_str(), want),
        None => false,
    }
}

fn block_pointer(i: usize, field: &str) -> (r: String)
    ensures
        r@ == block_field(i as nat, field@),
{
    let start = text::concat("/content/", text::show(i as u64).as_str());
    text::concat(start.as_str(), field)
}

/// The text of a reply.
pub fn reply_text(body: &str) -> (r: Result<String, String>)
    ensures
        said(r) == reply_said(body@),
{
    match json::json_fault_in(body) {
        Some(e) => {
            return Err(e);
        },
        None => {},
    }
    let stop = json::json_text_at(body, "/stop_reason");
    proof {
        reveal_strlit("refusal");
        reveal_strlit("max_tokens");
    }
    if is_text(&stop, "refusal") {
        return Err("the model declined this request".to_owned());
    }
    if is_text(&stop, "max_tokens") {
        return Err("reply was truncated".to_owned());
    }
    match json::json_items_at(body, "/content") {
        Some(n) => {
            let mut i: usize = 0;
            while i < n
                invariant
                    json::json_fault(body@) is None,
                    json::json_text(body@, "/stop_reason"@) != Some("refusal"@),
                    json::json_text(body@, "/stop_reason"@) != Some("max_tokens"@),
                    json::json_items(body@, "/content"@) == Some(n),
                    text_block(body@, 0, n as int) == text_block(body@, i as int, n as int),
                decreases n - i,
            {
                let kind = json::json_text_at(body, block_pointer(i, "/type").as_str());
                if is_text(&kind, "text") {
                    return match json::json_text_at(body, block_pointer(i, "/text").as_str()) {
                        Some(t) => Ok(t),
                        None => Err("no text block in the reply".to_owned()),
                    };
                }
                i += 1;
            }
        },
        None => {},
    }
    Err("no text block in the reply".to_owned())
}

// ── putting translations in place ────────────────────────────────────────────

/// One entry of a reply.
#[derive(Debug)]
pub struct Entry {
    pub index: usize,
    pub source: String,
    pub text: String,
}

/// The mathematical content of an [`Entry`].
pub struct EntryView {
    pub index: usize,
    pub source: Seq<char>,
    pub text: Seq<char>,
}

impl View for Entry {
    type V = EntryView;

    open spec fn view(&self) -> EntryView {
        EntryView { index: self.index, source: self.source@, text: self.text@ }
    }
}

/// The contents of a list of entries.
pub open spec fn entry_views(s: Seq<Entry>) -> Seq<EntryView> {
    s.map_values(|e: Entry| e@)
}

/// A text without white space.
pub open spec fn bare(s: Seq<char>) -> Seq<char> {
    s.filter(|c: char| !text::white(c))
}

/// Whether an echo is the line: any difference but in white space counts.
pub open spec fn is_echo(got: Seq<char>, want: Seq<char>) -> bool {
    bare(got) == bare(want)
}

/// The start of a text, so that an error fits on a line.
pub open spec fn short(s: Seq<char>) -> Seq<char> {
    if s.len() > 40 {
        s.take(40) + "…"@
    } else {
        s
    }
}

/// A text in quotes, with escapes, as the standard library shows it.
pub uninterp spec fn quoted(s: Seq<char>) -> Seq<char>;

/// The `Debug` form of `str`: the text in quotes with escapes. It depends on the text
/// alone.
#[verifier::external_body]
pub(crate) fn quote(s: &str) -> (r: String)
    ensures
        r@ == quoted(s@),
{
    format!("{s:?}")
}

/// Which lines have come, and what they say.
pub struct PlacedView {
    pub filled: Seq<bool>,
    pub out: Seq<Seq<char>>,
}

/// The reply has an index beyond the lines.
pub open spec fn beyond(index: nat, n: nat) -> Seq<char> {
    "reply indexed line "@ + text::decimal(index) + " of "@ + text::decimal(n)
}

/// The reply has an index twice.
pub open spec fn repeated(index: nat) -> Seq<char> {
    "reply repeated line "@ + text::decimal(index)
}

/// The reply echoes another line.
pub open spec fn misplaced(got: Seq<char>, index: nat, want: Seq<char>) -> Seq<char> {
    "reply put "@ + quoted(short(got)) + " under line "@ + text::decimal(index) + " ("@ + quoted(
        short(want),
    ) + ")"@
}

/// The reply lacks lines.
pub open spec fn dropped(missing: nat, n: nat) -> Seq<char> {
    "reply dropped "@ + text::decimal(missing) + " of "@ + text::decimal(n) + " lines"@
}

/// Putting entries in place one by one; the first that does not fit is the error.
pub open spec fn placing(entries: Seq<EntryView>, order: Seq<Seq<char>>) -> Result<
    PlacedView,
    Seq<char>,
>
    decreases entries.len(),
{
    if entries.len() == 0 {
        Ok(
            PlacedView {
                filled: Seq::new(order.len(), |i: int| false),
                out: Seq::new(order.len(), |i: int| Seq::empty()),
            },
        )
    } else {
        match placing(entries.drop_last(), order) {
            Err(e) => Err(e),
            Ok(p) => {
                let e = entries.last();
                let i = e.index as int;
                if i >= order.len() {
                    Err(beyond(i as nat, order.len()))
                } else if p.filled[i] {
                    Err(repeated(i as nat))
                } else if !is_echo(e.source, order[i]) {
                    Err(misplaced(e.source, i as nat, order[i]))
                } else {
                    Ok(
                        PlacedView {
                            filled: p.filled.update(i, true),
                            out: p.out.update(i, text::trimmed(e.text)),
                        },
                    )
                }
            },
        }
    }
}

/// How many of the flags are not set.
pub open spec fn unset(s: Seq<bool>) -> nat
    decreases s.len(),
{
    if s.len() == 0 {
        0
    } else {
        unset(s.drop_last()) + if s.last() {
            0nat
        } else {
            1
        }
    }
}

/// One translation for each line that was sent, or what is wrong with the reply.
pub open spec fn placed(entries: Seq<EntryView>, order: Seq<Seq<char>>) -> Result<
    Seq<Seq<char>>,
    Seq<char>,
> {
    match placing(entries, order) {
        Err(e) => Err(e),
        Ok(p) => if unset(p.filled) > 0 {
            Err(dropped(unset(p.filled), order.len()))
        } else {
            Ok(p.out)
        },
    }
}

proof fn lemma_unset(s: Seq<bool>)
    ensures
        unset(s) == 0 ==> forall|i: int| 0 <= i < s.len() ==> #[trigger] s[i],
        unset(s) <= s.len(),
    decreases s.len(),
{
    if s.len() > 0 {
        lemma_unset(s.drop_last());
        if unset(s) == 0 {
            assert forall|i: int| 0 <= i < s.len() implies #[trigger] s[i] by {
                if i < s.len() - 1 {
                    assert(s.drop_last()[i]);
                }
            }
        }
    }
}

/// Whether `out[i]` is what an entry with the index `i` and an echo of line `i` says.
pub open spec fn answered(
    entries: Seq<EntryView>,
    order: Seq<Seq<char>>,
    out: Seq<Seq<char>>,
    i: int,
) -> bool {
    exists|k: int|
        0 <= k < entries.len() && (#[trigger] entries[k]).index == i && is_echo(
            entries[k].source,
            order[i],
        ) && out[i] == text::trimmed(entries[k].text)
}

proof fn lemma_placing(entries: Seq<EntryView>, order: Seq<Seq<char>>)
    requires
        placing(entries, order) is Ok,
    ensures
        ({
            let p = placing(entries, order)->Ok_0;
            &&& p.filled.len() == order.len()
            &&& p.out.len() == order.len()
            &&& forall|i: int|
                0 <= i < order.len() && #[trigger] p.filled[i] ==> answered(
                    entries,
                    order,
                    p.out,
                    i,
                )
            &&& unset(p.filled) + entries.len() == order.len()
        }),
    decreases entries.len(),
{
    let p = placing(entries, order)->Ok_0;
    if entries.len() == 0 {
        lemma_unset_all(order.len());
    } else {
        let front = entries.drop_last();
        lemma_placing(front, order);
        let q = placing(front, order)->Ok_0;
        let e = entries.last();
        lemma_unset_update(q.filled, e.index as int);
        assert forall|i: int| 0 <= i < order.len() && #[trigger] p.filled[i] implies answered(
            entries,
            order,
            p.out,
            i,
        ) by {
            if i == e.index {
                assert(entries[entries.len() - 1].index == i);
            } else {
                assert(q.filled[i]);
                assert(answered(front, order, q.out, i));
                let k = choose|k: int|
                    0 <= k < front.len() && (#[trigger] front[k]).index == i && is_echo(
                        front[k].source,
                        order[i],
                    ) && q.out[i] == text::trimmed(front[k].text);
                assert(entries[k] == front[k]);
            }
        }
    }
}

/// Flags that are all unset are as many as there are.
pub proof fn lemma_unset_all(n: nat)
    ensures
        unset(Seq::new(n, |i: int| false)) == n,
    decreases n,
{
    if n > 0 {
        lemma_unset_all((n - 1) as nat);
        assert(Seq::new(n, |i: int| false).drop_last() =~= Seq::new(
            (n - 1) as nat,
            |i: int| false,
        ));
    }
}

/// Setting a flag leaves one less that is not.
pub proof fn lemma_unset_update(s: Seq<bool>, i: int)
    requires
        0 <= i < s.len(),
        !s[i],
    ensures
        unset(s.update(i, true)) + 1 == unset(s),
    decreases s.len(),
{
    if i == s.len() - 1 {
        assert(s.update(i, true).drop_last() =~= s.drop_last());
    } else {
        lemma_unset_update(s.drop_last(), i);
        assert(s.update(i, true).drop_last() =~= s.drop_last().update(i, true));
    }
}

/// An accepted reply is aligned: it has exactly one entry for each line, and each
/// translation is that of the entry which carries the line's number and echoes the line.
pub proof fn an_accepted_reply_is_aligned(entries: Seq<EntryView>, order: Seq<Seq<char>>)
    requires
        placed(entries, order) is Ok,
    ensures
        entries.len() == order.len(),
        placed(entries, order)->Ok_0.len() == order.len(),
        forall|i: int|
            0 <= i < order.len() ==> #[trigger] answered(
                entries,
                order,
                placed(entries, order)->Ok_0,
                i,
            ),
{
    lemma_placing(entries, order);
    let p = placing(entries, order)->Ok_0;
    lemma_unset(p.filled);
    assert forall|i: int| 0 <= i < order.len() implies #[trigger] answered(
        entries,
        order,
        p.out,
        i,
    ) by {
        assert(p.filled[i]);
    }
}

/// A reply with fewer entries than lines is rejected.
pub proof fn a_short_reply_is_rejected(entries: Seq<EntryView>, order: Seq<Seq<char>>)
    requires
        entries.len() < order.len(),
    ensures
        placed(entries, order) is Err,
{
    if placed(entries, order) is Ok {
        an_accepted_reply_is_aligned(entries, order);
    }
}

fn without_white(s: &str) -> (r: Vec<char>)
    ensures
        r@ == bare(s@),
{
    let cs = text::chars_of(s);
    let mut out: Vec<char> = Vec::new();
    let mut i: usize = 0;
    let ghost f = |c: char| !text::white(c);
    assert(out@ =~= cs@.take(0).filter(f)) by {
        reveal(Seq::filter);
    }
    while i < cs.len()
        invariant
            i <= cs@.len(),
            f == (|c: char| !text::white(c)),
            out@ == cs@.take(i as int).filter(f),
        decreases cs@.len() - i,
    {
        proof {
            broadcast use Seq::lemma_filter_push;

            assert(cs@.take(i + 1) == cs@.take(i as int).push(cs@[i as int]));
        }
        if !text::is_white(cs[i]) {
            out.push(cs[i]);
        }
        i += 1;
    }
    assert(cs@.take(cs@.len() as int) == cs@);
    out
}

/// Whether the model's echo is the line it was handed.
pub fn echoes(got: &str, want: &str) -> (r: bool)
    ensures
        r == is_echo(got@, want@),
{
    let a = without_white(got);
    let b = without_white(want);
    text::same(a.as_slice(), b.as_slice())
}

/// The first forty characters of a text, with a mark where there are more.
pub fn snippet(s: &str) -> (r: String)
    ensures
        r@ == short(s@),
{
    let cs = text::chars_of(s);
    if cs.len() > 40 {
        text::concat(take_head(s, 40).as_str(), "…")
    } else {
        text::string_of(cs.as_slice())
    }
}

fn beyond_text(index: usize, n: usize) -> (r: String)
    ensures
        r@ == beyond(index as nat, n as nat),
{
    let mut out = "reply indexed line ".to_owned();
    out.append(text::show(index as u64).as_str());
    out.append(" of ");
    out.append(text::show(n as u64).as_str());
    out
}

fn misplaced_text(got: &str, index: usize, want: &str) -> (r: String)
    ensures
        r@ == misplaced(got@, index as nat, want@),
{
    let mut out = "reply put ".to_owned();
    out.append(quote(snippet(got).as_str()).as_str());
    out.append(" under line ");
    out.append(text::show(index as u64).as_str());
    out.append(" (");
    out.append(quote(snippet(want).as_str()).as_str());
    out.append(")");
    out
}

fn dropped_text(missing: usize, n: usize) -> (r: String)
    ensures
        r@ == dropped(missing as nat, n as nat),
{
    let mut out = "reply dropped ".to_owned();
    out.append(text::show(missing as u64).as_str());
    out.append(" of ");
    out.append(text::show(n as u64).as_str());
    out.append(" lines");
    out
}

/// The content of translations or an error.
pub open spec fn placed_view(r: Result<Vec<String>, String>) -> Result<Seq<Seq<char>>, Seq<char>> {
    match r {
        Ok(v) => Ok(text::texts(v@)),
        Err(e) => Err(e@),
    }
}

proof fn lemma_placing_error(entries: Seq<EntryView>, order: Seq<Seq<char>>, k: int)
    requires
        0 <= k <= entries.len(),
        placing(entries.take(k), order) is Err,
    ensures
        placing(entries, order) == placing(entries.take(k), order),
    decreases entries.len(),
{
    if k < entries.len() {
        assert(entries.drop_last().take(k) =~= entries.take(k));
        lemma_placing_error(entries.drop_last(), order, k);
    } else {
        assert(entries.take(k) =~= entries);
    }
}

/// One translation for each line in `order`, or an error where the entries cannot be
/// placed exactly.
pub fn place(entries: Vec<Entry>, order: &[String]) -> (r: Result<Vec<String>, String>)
    ensures
        placed_view(r) == placed(entry_views(entries@), text::texts(order@)),
        r matches Ok(v) ==> v@.len() == order@.len(),
{
    let ghost es = entry_views(entries@);
    let ghost lines = text::texts(order@);
    let n: usize = order.len();
    let mut out: Vec<String> = Vec::new();
    let mut filled: Vec<bool> = Vec::new();
    while out.len() < n
        invariant
            out@.len() <= n,
            filled@.len() == out@.len(),
            forall|i: int| 0 <= i < out@.len() ==> (#[trigger] out@[i])@ == Seq::<char>::empty(),
            forall|i: int| 0 <= i < filled@.len() ==> !#[trigger] filled@[i],
        decreases n - out@.len(),
    {
        out.push(String::new());
        filled.push(false);
    }
    assert(filled@ =~= placing(es.take(0), lines)->Ok_0.filled);
    assert(text::texts(out@) =~= placing(es.take(0), lines)->Ok_0.out);
    for e in it: entries
        invariant
            it.seq() == entries@,
            es == entry_views(entries@),
            lines == text::texts(order@),
            n == order@.len(),
            out@.len() == n,
            filled@.len() == n,
            placing(es.take(it.index() as int), lines) == Ok::<PlacedView, Seq<char>>(
                PlacedView { filled: filled@, out: text::texts(out@) },
            ),
    {
        let ghost k = it.index() as int;
        let ghost before = text::texts(out@);
        assert(es.take(k + 1).drop_last() == es.take(k));
        assert(es[k] == e@);
        let i: usize = e.index;
        if i >= n {
            proof {
                lemma_placing_error(es, lines, k + 1);
            }
            return Err(beyond_text(i, n));
        }
        assert(lines[i as int] == order@[i as int]@);
        if filled[i] {
            proof {
                lemma_placing_error(es, lines, k + 1);
            }
            return Err(text::concat("reply repeated line ", text::show(i as u64).as_str()));
        }
        if !echoes(e.source.as_str(), order[i].as_str()) {
            proof {
                lemma_placing_error(es, lines, k + 1);
            }
            return Err(misplaced_text(e.source.as_str(), i, order[i].as_str()));
        }
        filled.set(i, true);
        let cs = text::chars_of(e.text.as_str());
        let t = text::string_of(text::trim(cs.as_slice()));
        out.set(i, t);
        assert(text::texts(out@) =~= before.update(i as int, t@));
    }
    assert(es.take(es.len() as int) == es);
    let mut missing: usize = 0;
    let mut i: usize = 0;
    while i < n
        invariant
            i <= n,
            n == filled@.len(),
            missing == unset(filled@.take(i as int)),
            missing <= i,
        decreases n - i,
    {
        assert(filled@.take(i + 1).drop_last() == filled@.take(i as int));
        if !filled[i] {
            missing += 1;
        }
        i += 1;
    }
    assert(filled@.take(n as int) == filled@);
    if missing > 0 {
        return Err(dropped_text(missing, n));
    }
    Ok(out)
}

/// The translation of each line of a song: that of its trimmed form, nothing for a
/// blank one.
pub open spec fn spread_out(
    lines: Seq<Seq<char>>,
    seen: Map<Seq<char>, usize>,
    done: Seq<Seq<char>>,
) -> Seq<Seq<char>> {
    lines.map_values(
        |l: Seq<char>|
            if seen.contains_key(text::trimmed(l)) {
                done[seen[text::trimmed(l)] as int]
            } else {
                Seq::empty()
            },
    )
}

/// Brings translations back to the lines they belong to.
pub fn spread(lines: &[String], seen: &TextMap<usize>, done: &[String]) -> (r: Vec<String>)
    requires
        forall|k: Seq<char>| #[trigger] seen@.contains_key(k) ==> seen@[k] < done@.len(),
    ensures
        text::texts(r@) == spread_out(text::texts(lines@), seen@, text::texts(done@)),
{
    let ghost vs = text::texts(lines@);
    let ghost ds = text::texts(done@);
    let mut out: Vec<String> = Vec::new();
    let mut i: usize = 0;
    while i < lines.len()
        invariant
            i <= lines@.len(),
            vs == text::texts(lines@),
            ds == text::texts(done@),
            forall|k: Seq<char>| #[trigger] seen@.contains_key(k) ==> seen@[k] < done@.len(),
            text::texts(out@) =~= spread_out(vs, seen@, ds).take(i as int),
        decreases lines@.len() - i,
    {
        assert(vs[i as int] == lines@[i as int]@);
        let ghost before = text::texts(out@);
        let cs = text::chars_of(lines[i].as_str());
        let t = text::string_of(text::trim(cs.as_slice()));
        let s = match seen.get(t.as_str()) {
            Some(k) => {
                assert(ds[*k as int] == done@[*k as int]@);
                done[*k].clone()
            },
            None => String::new(),
        };
        assert(s@ =~= spread_out(vs, seen@, ds)[i as int]);
        out.push(s);
        assert(text::texts(out@) =~= before.push(s@));
        assert(spread_out(vs, seen@, ds).take(i + 1) =~= spread_out(vs, seen@, ds).take(
            i as int,
        ).push(s@));
        i += 1;
    }
    assert(spread_out(vs, seen@, ds).take(vs.len() as int) =~= spread_out(vs, seen@, ds));
    out
}

/// A line that comes back, a chorus above all, is translated the same each time, and a
/// blank line stays blank.
pub proof fn repeats_agree(
    lines: Seq<Seq<char>>,
    seen: Map<Seq<char>, usize>,
    done: Seq<Seq<char>>,
    i: int,
    j: int,
)
    requires
        0 <= i < lines.len(),
        0 <= j < lines.len(),
        locates(seen, sent(lines)),
    ensures
        spread_out(lines, seen, done).len() == lines.len(),
        text::trimmed(lines[i]) == text::trimmed(lines[j]) ==> spread_out(lines, seen, done)[i]
            == spread_out(lines, seen, done)[j],
        text::trimmed(lines[i]).len() == 0 ==> spread_out(lines, seen, done)[i].len() == 0,
{
    nothing_is_sent_twice(lines);
    let t = text::trimmed(lines[i]);
    if t.len() == 0 && seen.contains_key(t) {
        assert(sent(lines)[seen[t] as int].len() > 0);
    }
}

} // verus!
