//! Markdown escaping and message formatting.
//!
//! User-supplied text (commit messages, repository names, URLs) is embedded
//! in a markdown-style message. Characters that the destination's renderer
//! treats as markup controls are backslash-escaped first, so the text
//! renders literally and cannot break the link structure around it.

use vstd::prelude::*;
use vstd::string::StringExecFns;
use crate::event::Commit;
use crate::event::PushEvent;

verus! {

/// The markup-control characters of the destination's renderer: each is
/// backslash-escaped before user text is embedded in a message.
pub open spec fn is_reserved(c: char) -> bool {
    c == '\\' || c == '_' || c == '*' || c == '[' || c == ']' || c == '(' || c == ')'
        || c == '~' || c == '`' || c == '>' || c == '#' || c == '+' || c == '-'
        || c == '=' || c == '|' || c == '{' || c == '}' || c == '.' || c == '!'
}

/// How one character appears after escaping: reserved characters gain a
/// leading backslash, all others pass through unchanged.
pub open spec fn escaped_char(c: char) -> Seq<char> {
    if is_reserved(c) {
        seq!['\\', c]
    } else {
        seq![c]
    }
}

/// The escaped form of a whole text: each character replaced by its
/// escaped form, in order.
pub open spec fn escape_seq(s: Seq<char>) -> Seq<char>
    decreases s.len(),
{
    if s.len() == 0 {
        Seq::<char>::empty()
    } else {
        escaped_char(s[0]) + escape_seq(s.drop_first())
    }
}

/// Escaping distributes over concatenation.
pub proof fn lemma_escape_seq_concat(a: Seq<char>, b: Seq<char>)
    ensures
        escape_seq(a + b) == escape_seq(a) + escape_seq(b),
    decreases a.len(),
{
    if a.len() == 0 {
        assert(a + b =~= b);
        assert(escape_seq(a) + escape_seq(b) =~= escape_seq(b));
    } else {
        assert((a + b).drop_first() =~= a.drop_first() + b);
        lemma_escape_seq_concat(a.drop_first(), b);
        assert(escape_seq(a + b) =~= escape_seq(a) + escape_seq(b));
    }
}

/// A one-character text escapes to that character's escaped form.
pub proof fn lemma_escape_seq_single(c: char)
    ensures
        escape_seq(seq![c]) == escaped_char(c),
{
    assert(seq![c].drop_first() =~= Seq::<char>::empty());
    assert(escape_seq(Seq::<char>::empty()) == Seq::<char>::empty());
    assert(escape_seq(seq![c]) =~= escaped_char(c));
}

/// Escaping one more character appends that character's escaped form.
pub proof fn lemma_escape_seq_push(s: Seq<char>, i: int)
    requires
        0 <= i < s.len(),
    ensures
        escape_seq(s.take(i + 1)) == escape_seq(s.take(i)) + escaped_char(s[i]),
{
    assert(s.take(i + 1) =~= s.take(i) + seq![s[i]]);
    lemma_escape_seq_concat(s.take(i), seq![s[i]]);
    lemma_escape_seq_single(s[i]);
}

/// Whether a character must be escaped before embedding.
pub fn reserved_char(c: char) -> (b: bool)
    ensures
        b == is_reserved(c),
{
    c == '\\' || c == '_' || c == '*' || c == '[' || c == ']' || c == '(' || c == ')'
        || c == '~' || c == '`' || c == '>' || c == '#' || c == '+' || c == '-'
        || c == '=' || c == '|' || c == '{' || c == '}' || c == '.' || c == '!'
}

/// Relies on String::push: appends exactly the given character.
#[verifier::external_body]
fn push_char(s: &mut String, c: char)
    ensures
        final(s)@ == old(s)@.push(c),
{
    s.push(c);
}

/// Escape a text for embedding: every reserved character gains a leading
/// backslash, everything else is kept as it is.
pub fn escape(s: &str) -> (r: String)
    ensures
        r@ == escape_seq(s@),
{
    let len: usize = s.unicode_len();
    let mut out: String = String::new();
    let mut i: usize = 0;
    while i < len
        invariant
            i <= len,
            len == s@.len(),
            out@ == escape_seq(s@.take(i as int)),
        decreases len - i,
    {
        let c = s.get_char(i);
        if reserved_char(c) {
            push_char(&mut out, '\\');
        }
        push_char(&mut out, c);
        proof {
            lemma_escape_seq_push(s@, i as int);
            assert(out@ =~= escape_seq(s@.take(i as int)) + escaped_char(s@[i as int]));
        }
        i = i + 1;
    }
    proof {
        assert(s@.take(len as int) =~= s@);
    }
    out
}

/// A markdown-style hyperlink: the escaped text in brackets, then the
/// escaped URL in parentheses.
pub open spec fn link_of(text: Seq<char>, url: Seq<char>) -> Seq<char> {
    seq!['['] + escape_seq(text) + seq![']', '('] + escape_seq(url) + seq![')']
}

/// Format a hyperlink whose text and URL are escaped before embedding.
pub fn format_link(text: &str, url: &str) -> (r: String)
    ensures
        r@ == link_of(text@, url@),
{
    let mut out: String = String::new();
    push_char(&mut out, '[');
    let escaped_text = escape(text);
    out.append(escaped_text.as_str());
    push_char(&mut out, ']');
    push_char(&mut out, '(');
    let escaped_url = escape(url);
    out.append(escaped_url.as_str());
    push_char(&mut out, ')');
    proof {
        assert(out@ =~= link_of(text@, url@));
    }
    out
}

/// One bullet line of the message body: a bullet, a space, and a link
/// whose text is the commit's message and whose target is its URL.
pub open spec fn commit_line_of(c: Commit) -> Seq<char> {
    seq!['\u{2022}', ' '] + link_of(c.message@, c.url@)
}

/// Format the bullet line for one commit.
pub fn format_commit_line(c: &Commit) -> (r: String)
    ensures
        r@ == commit_line_of(*c),
{
    let mut out: String = String::new();
    push_char(&mut out, '\u{2022}');
    push_char(&mut out, ' ');
    let link = format_link(c.message.as_str(), c.url.as_str());
    out.append(link.as_str());
    proof {
        assert(out@ =~= commit_line_of(*c));
    }
    out
}

/// The commit lines joined with single newlines, in input order.
pub open spec fn joined_commit_lines(commits: Seq<Commit>) -> Seq<char>
    decreases commits.len(),
{
    if commits.len() == 0 {
        Seq::<char>::empty()
    } else if commits.len() == 1 {
        commit_line_of(commits[0])
    } else {
        joined_commit_lines(commits.drop_last()) + seq!['\n'] + commit_line_of(commits.last())
    }
}

/// Everything of the message before the commit lines: a header that links
/// to the repository and to the sender's profile.
pub open spec fn header_of(e: PushEvent) -> Seq<char> {
    "New push to "@ + link_of(e.repository.full_name@, e.repository.html_url@) + " by "@
        + link_of(e.sender.login@, e.sender.html_url@) + ":\n\n"@
}

/// The whole formatted message: the header, then one bullet line per
/// commit, joined with newlines, in input order.
pub open spec fn message_of(e: PushEvent) -> Seq<char> {
    header_of(e) + joined_commit_lines(e.commits@)
}

/// Format the push-event message that the dispatcher delivers.
pub fn format_push_message(e: &PushEvent) -> (r: String)
    ensures
        r@ == message_of(*e),
{
    let mut out: String = String::from_str("New push to ");
    let repo_link = format_link(e.repository.full_name.as_str(), e.repository.html_url.as_str());
    out.append(repo_link.as_str());
    out.append(" by ");
    let sender_link = format_link(e.sender.login.as_str(), e.sender.html_url.as_str());
    out.append(sender_link.as_str());
    out.append(":\n\n");
    proof {
        assert(out@ =~= header_of(*e));
        assert(e.commits@.take(0) =~= Seq::<Commit>::empty());
    }
    let n: usize = e.commits.len();
    let mut i: usize = 0;
    while i < n
        invariant
            i <= n,
            n == e.commits@.len(),
            out@ == header_of(*e) + joined_commit_lines(e.commits@.take(i as int)),
        decreases n - i,
    {
        if i > 0 {
            push_char(&mut out, '\n');
        }
        let line = format_commit_line(&e.commits[i]);
        out.append(line.as_str());
        proof {
            let taken = e.commits@.take(i + 1 as int);
            if i == 0 {
                assert(taken.len() == 1);
                assert(taken[0] == e.commits@[0]);
                assert(out@ =~= header_of(*e) + joined_commit_lines(taken));
            } else {
                assert(taken.drop_last() =~= e.commits@.take(i as int));
                assert(taken.last() == e.commits@[i as int]);
                assert(out@ =~= header_of(*e) + joined_commit_lines(taken));
            }
        }
        i = i + 1;
    }
    proof {
        assert(e.commits@.take(n as int) =~= e.commits@);
    }
    out
}

/// Whether a text is free of newlines.
pub open spec fn has_no_newline(s: Seq<char>) -> bool {
    forall|j: int| 0 <= j < s.len() ==> s[j] != '\n'
}

/// The index of the last newline of a text, or -1 if it has none.
pub open spec fn last_newline(s: Seq<char>) -> int
    decreases s.len(),
{
    if s.len() == 0 {
        -1
    } else if s.last() == '\n' {
        s.len() - 1
    } else {
        last_newline(s.drop_last())
    }
}

/// The last-newline index lies inside the text, or is -1.
pub proof fn lemma_last_newline_bounds(s: Seq<char>)
    ensures
        -1 <= last_newline(s) < s.len(),
    decreases s.len(),
{
    if s.len() > 0 && s.last() != '\n' {
        lemma_last_newline_bounds(s.drop_last());
    }
}

/// A text without newlines has no last newline.
pub proof fn lemma_no_newline_last(s: Seq<char>)
    requires
        has_no_newline(s),
    ensures
        last_newline(s) == -1,
    decreases s.len(),
{
    if s.len() > 0 {
        assert(s.last() != '\n');
        assert(has_no_newline(s.drop_last()));
        lemma_no_newline_last(s.drop_last());
    }
}

/// Appending a newline and then newline-free text moves the last newline
/// to the appended one.
pub proof fn lemma_last_newline_append(a: Seq<char>, b: Seq<char>)
    requires
        has_no_newline(b),
    ensures
        last_newline(a + seq!['\n'] + b) == a.len(),
    decreases b.len(),
{
    let s = a + seq!['\n'] + b;
    if b.len() == 0 {
        assert(s.last() == '\n');
    } else {
        assert(s.last() == b.last());
        assert(b.last() != '\n');
        assert(s.drop_last() =~= a + seq!['\n'] + b.drop_last());
        assert(has_no_newline(b.drop_last()));
        lemma_last_newline_append(a, b.drop_last());
    }
}

/// The lines of a text: the segments between its newlines, in order. A
/// text without newlines is one line.
pub open spec fn split_lines(s: Seq<char>) -> Seq<Seq<char>>
    decreases s.len(),
    via split_lines_decreases
{
    if last_newline(s) < 0 {
        seq![s]
    } else {
        split_lines(s.take(last_newline(s))).push(s.skip(last_newline(s) + 1))
    }
}

#[via_fn]
proof fn split_lines_decreases(s: Seq<char>) {
    lemma_last_newline_bounds(s);
}

/// A text without newlines splits into exactly itself.
pub proof fn lemma_split_lines_whole(s: Seq<char>)
    requires
        has_no_newline(s),
    ensures
        split_lines(s) == seq![s],
{
    lemma_no_newline_last(s);
}

/// Escaping never introduces a newline.
pub proof fn lemma_escape_keeps_no_newline(s: Seq<char>)
    requires
        has_no_newline(s),
    ensures
        has_no_newline(escape_seq(s)),
    decreases s.len(),
{
    if s.len() > 0 {
        assert(has_no_newline(s.drop_first()));
        lemma_escape_keeps_no_newline(s.drop_first());
        let head = escaped_char(s[0]);
        let tail = escape_seq(s.drop_first());
        assert(escape_seq(s) == head + tail);
        assert forall|j: int| 0 <= j < escape_seq(s).len() implies escape_seq(s)[j] != '\n' by {
            if j < head.len() {
                assert(head[j] == '\\' || head[j] == s[0]);
            } else {
                assert(escape_seq(s)[j] == tail[j - head.len()]);
            }
        }
    }
}

/// A commit whose message and URL are free of newlines formats to a
/// newline-free bullet line.
pub proof fn lemma_commit_line_no_newline(c: Commit)
    requires
        has_no_newline(c.message@),
        has_no_newline(c.url@),
    ensures
        has_no_newline(commit_line_of(c)),
{
    lemma_escape_keeps_no_newline(c.message@);
    lemma_escape_keeps_no_newline(c.url@);
    let line = commit_line_of(c);
    assert forall|j: int| 0 <= j < line.len() implies line[j] != '\n' by {
        let et = escape_seq(c.message@);
        let eu = escape_seq(c.url@);
        assert(line == seq!['\u{2022}', ' ', '['] + et + seq![']', '('] + eu + seq![')']);
        if 3 <= j < 3 + et.len() {
            assert(line[j] == et[j - 3]);
        } else if 3 + et.len() + 2 <= j < 3 + et.len() + 2 + eu.len() {
            assert(line[j] == eu[j - (3 + et.len() + 2)]);
        }
    }
}

/// Splitting the joined bullet lines at newlines gives back exactly the
/// bullet lines, one per commit, in input order.
pub proof fn lemma_split_joined_lines(commits: Seq<Commit>)
    requires
        commits.len() > 0,
        forall|k: int| 0 <= k < commits.len() ==> has_no_newline(
            #[trigger] commit_line_of(commits[k]),
        ),
    ensures
        split_lines(joined_commit_lines(commits)).len() == commits.len(),
        forall|k: int| 0 <= k < commits.len() ==> #[trigger] split_lines(
            joined_commit_lines(commits),
        )[k] == commit_line_of(commits[k]),
    decreases commits.len(),
{
    if commits.len() == 1 {
        lemma_split_lines_whole(commit_line_of(commits[0]));
    } else {
        let front = commits.drop_last();
        let joined = joined_commit_lines(commits);
        let last_line = commit_line_of(commits.last());
        assert(joined == joined_commit_lines(front) + seq!['\n'] + last_line);
        assert(forall|k: int| 0 <= k < front.len() ==> has_no_newline(
            #[trigger] commit_line_of(front[k]),
        ));
        lemma_split_joined_lines(front);
        lemma_last_newline_append(joined_commit_lines(front), last_line);
        assert(joined.take(joined_commit_lines(front).len() as int) =~= joined_commit_lines(
            front,
        ));
        assert(joined.skip(joined_commit_lines(front).len() + 1int) =~= last_line);
        assert(split_lines(joined) == split_lines(joined_commit_lines(front)).push(last_line));
        assert forall|k: int| 0 <= k < commits.len() implies #[trigger] split_lines(joined)[k]
            == commit_line_of(commits[k]) by {
            if k < front.len() {
                assert(split_lines(joined)[k] == split_lines(joined_commit_lines(front))[k]);
                assert(front[k] == commits[k]);
            }
        }
    }
}

/// For any push event whose commit messages and URLs are free of
/// newlines, the formatted message is the header followed by a body of
/// exactly one bullet line per commit, in input order: a push without
/// commits has an empty body, and otherwise splitting the body at
/// newlines yields the commits' bullet lines, every one of which begins
/// with a bullet and a space.
pub proof fn lemma_message_bullet_lines(e: PushEvent)
    requires
        forall|k: int| 0 <= k < e.commits@.len() ==> has_no_newline(
            (#[trigger] e.commits@[k]).message@,
        ) && has_no_newline(e.commits@[k].url@),
    ensures
        message_of(e) == header_of(e) + joined_commit_lines(e.commits@),
        e.commits@.len() == 0 ==> message_of(e) == header_of(e),
        e.commits@.len() > 0 ==> split_lines(joined_commit_lines(e.commits@)).len()
            == e.commits@.len(),
        forall|k: int| 0 <= k < e.commits@.len() ==> #[trigger] split_lines(
            joined_commit_lines(e.commits@),
        )[k] == commit_line_of(e.commits@[k]),
        forall|k: int| 0 <= k < e.commits@.len() ==> (#[trigger] split_lines(
            joined_commit_lines(e.commits@),
        )[k]).len() >= 2 && split_lines(joined_commit_lines(e.commits@))[k][0] == '\u{2022}'
            && split_lines(joined_commit_lines(e.commits@))[k][1] == ' ',
{
    if e.commits@.len() == 0 {
        assert(joined_commit_lines(e.commits@) == Seq::<char>::empty());
        assert(header_of(e) + Seq::<char>::empty() =~= header_of(e));
    } else {
        assert forall|k: int| 0 <= k < e.commits@.len() implies has_no_newline(
            #[trigger] commit_line_of(e.commits@[k]),
        ) by {
            lemma_commit_line_no_newline(e.commits@[k]);
        }
        lemma_split_joined_lines(e.commits@);
        assert forall|k: int| 0 <= k < e.commits@.len() implies (#[trigger] split_lines(
            joined_commit_lines(e.commits@),
        )[k]).len() >= 2 && split_lines(joined_commit_lines(e.commits@))[k][0] == '\u{2022}'
            && split_lines(joined_commit_lines(e.commits@))[k][1] == ' ' by {
            assert(split_lines(joined_commit_lines(e.commits@))[k] == commit_line_of(
                e.commits@[k],
            ));
        }
    }
}

/// Escaped text cannot break the message structure: in the escaped form
/// of any text, every reserved markup character other than the backslash
/// stands immediately after a backslash.
pub proof fn lemma_escape_reserved_escaped(s: Seq<char>)
    ensures
        forall|j: int| 0 <= j < escape_seq(s).len() && is_reserved(#[trigger] escape_seq(s)[j])
            && escape_seq(s)[j] != '\\' ==> 0 < j && escape_seq(s)[j - 1] == '\\',
    decreases s.len(),
{
    if s.len() > 0 {
        lemma_escape_reserved_escaped(s.drop_first());
        let head = escaped_char(s[0]);
        let tail = escape_seq(s.drop_first());
        assert(escape_seq(s) == head + tail);
        assert forall|j: int|
            0 <= j < escape_seq(s).len() && is_reserved(#[trigger] escape_seq(s)[j])
                && escape_seq(s)[j] != '\\' implies 0 < j && escape_seq(s)[j - 1] == '\\' by {
            if j < head.len() {
                if is_reserved(s[0]) {
                    assert(head == seq!['\\', s[0]]);
                    assert(j == 1);
                    assert(escape_seq(s)[0] == '\\');
                } else {
                    assert(head == seq![s[0]]);
                    assert(escape_seq(s)[j] == s[0]);
                }
            } else {
                let t = j - head.len();
                assert(escape_seq(s)[j] == tail[t]);
                assert(0 < t && tail[t - 1] == '\\');
                assert(escape_seq(s)[j - 1] == tail[t - 1]);
            }
        }
    }
}

} // verus!
