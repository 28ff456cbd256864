//! Command lines of the awww wallpaper daemon, and what its answers mean.

use crate::text::{
    after, before, blank, chars_of, find_text, first_at_is_the_first, first_occurrence, holds_text,
    is_space, nothing_splits_without_the_mark, slice_of, split_once, splitting_undoes_joining,
    stands_at, string_of, trim_chars, trimmed, trimming_undoes_padding,
};
use vstd::prelude::*;

verus! {

/// The strings as texts.
pub open spec fn texts(list: Seq<String>) -> Seq<Seq<char>> {
    Seq::new(list.len(), |i: int| list[i]@)
}

/// Asks the wallpaper daemon for things.
pub struct AwwwClient {}

/// What to do while the daemon is starting.
#[derive(Clone, Copy, PartialEq, Eq, Debug, Structural)]
pub enum StartStep {
    /// It runs.
    Running,
    /// Wait this many milliseconds, then ask again.
    AskAgain { wait_ms: u64, asked: u32 },
    /// It does not start.
    GiveUp,
}

/// What to do after the daemon was asked `asked` times since it was started, the last time with this
/// answer.
pub open spec fn start_step(asked: u32, running: bool) -> StartStep {
    if running {
        StartStep::Running
    } else if asked < 5 {
        StartStep::AskAgain { wait_ms: 500, asked: (asked + 1) as u32 }
    } else {
        StartStep::GiveUp
    }
}

/// `r` is what it means that a command has ended.
pub open spec fn ends(success: bool, failure: Seq<char>, stderr: Seq<char>, r: Result<(), String>) -> bool {
    &&& success ==> r is Ok
    &&& !success ==> (r matches Err(message) && message@ == failure + stderr)
}

/// `image` is the image that is shown, by what the daemon answered to a query.
pub open spec fn answers_query(success: bool, stdout: Seq<char>, image: Option<String>) -> bool {
    match image {
        Some(path) => success && shown_image(stdout) == Some(path@),
        None => !success || shown_image(stdout) is None,
    }
}

impl AwwwClient {
    /// A client.
    pub fn new() -> (client: AwwwClient) {
        AwwwClient {  }
    }

    /// The arguments that start the daemon.
    pub fn start_arguments(&self) -> (arguments: Vec<String>)
        ensures
            texts(arguments@) == seq!["--format"@, "argb"@, "--no-cache"@],
    {
        let arguments = vec!["--format".to_owned(), "argb".to_owned(), "--no-cache".to_owned()];
        assert(texts(arguments@) =~= seq!["--format"@, "argb"@, "--no-cache"@]);
        arguments
    }

    /// The arguments that show an image.
    pub fn set_wallpaper_arguments(&self, image_path: &str) -> (arguments: Vec<String>)
        ensures
            texts(arguments@) == seq![
                "img"@,
                image_path@,
                "--transition-type"@,
                "fade"@,
                "--transition-duration"@,
                "1"@,
            ],
    {
        let arguments = vec![
            "img".to_owned(),
            image_path.to_owned(),
            "--transition-type".to_owned(),
            "fade".to_owned(),
            "--transition-duration".to_owned(),
            "1".to_owned(),
        ];
        assert(texts(arguments@) =~= seq![
            "img"@,
            image_path@,
            "--transition-type"@,
            "fade"@,
            "--transition-duration"@,
            "1"@,
        ]);
        arguments
    }

    /// The arguments that show a colour.
    pub fn clear_wallpaper_arguments(&self, color: &str) -> (arguments: Vec<String>)
        ensures
            texts(arguments@) == seq!["clear"@, color@],
    {
        let arguments = vec!["clear".to_owned(), color.to_owned()];
        assert(texts(arguments@) =~= seq!["clear"@, color@]);
        arguments
    }

    /// What to do after the daemon was asked `asked` times, the last time with this answer, since it
    /// was started: it is asked five times, half a second apart.
    pub fn start_daemon(&self, asked: u32, running: bool) -> (step: StartStep)
        ensures
            step == start_step(asked, running),
    {
        if running {
            StartStep::Running
        } else if asked < 5 {
            StartStep::AskAgain { wait_ms: 500, asked: asked + 1 }
        } else {
            StartStep::GiveUp
        }
    }

    /// What it means that a command has ended: an error with what it wrote, behind this text, if it
    /// did not succeed.
    pub fn command_ended(&self, success: bool, failure: &str, stderr: &str) -> (r: Result<
        (),
        String,
    >)
        ensures
            ends(success, failure@, stderr@, r),
    {
        if success {
            Ok(())
        } else {
            let mut message = failure.to_owned();
            message.append(stderr);
            Err(message)
        }
    }

    /// The image that is shown, by what the daemon answered to a query: the first line that speaks of
    /// one decides.
    pub fn query_wallpaper(&self, success: bool, stdout: &str) -> (image: Option<String>)
        ensures
            answers_query(success, stdout@, image),
    {
        if !success {
            return None;
        }
        let mut rest = chars_of(stdout);
        loop
            invariant
                success,
                shown_image(stdout@) == shown_image(rest@),
            decreases rest@.len(),
        {
            let (line, more) = split_once(&rest, '\n');
            if let Some(path) = image_of_line(&line) {
                return Some(string_of(&path));
            }
            match more {
                Some(more) => {
                    proof {
                        first_at_is_the_first(rest@, '\n');
                    }
                    rest = more;
                },
                None => {
                    return None;
                },
            }
        }
    }
}

/// Where `needle` first stands in `s`.
pub open spec fn occurrence(s: Seq<char>, needle: Seq<char>) -> int {
    choose|at: int| first_occurrence(s, needle, at)
}

/// The image that a line speaks of. It stands behind the first `image: `, up to the next one.
pub open spec fn image_in_line(line: Seq<char>) -> Option<Seq<char>> {
    let mark = "image: "@;
    if holds_text(line, "currently displaying: image:"@) && holds_text(line, mark) {
        let rest = line.skip(occurrence(line, mark) + mark.len());
        Some(
            trimmed(
                if holds_text(rest, mark) {
                    rest.take(occurrence(rest, mark))
                } else {
                    rest
                },
            ),
        )
    } else {
        None
    }
}

/// The image that the first line to speak of one speaks of.
pub open spec fn shown_image(text: Seq<char>) -> Option<Seq<char>>
    decreases text.len(),
{
    match image_in_line(before(text, '\n')) {
        Some(path) => Some(path),
        None => match after(text, '\n') {
            Some(rest) => {
                proof {
                    first_at_is_the_first(text, '\n');
                }
                shown_image(rest)
            },
            None => None,
        },
    }
}

proof fn lemma_occurrence(s: Seq<char>, needle: Seq<char>, at: int)
    requires
        first_occurrence(s, needle, at),
    ensures
        occurrence(s, needle) == at,
{
    let other = occurrence(s, needle);
    assert(first_occurrence(s, needle, other));
    if other < at {
        assert(!stands_at(s, needle, other));
    } else if at < other {
        assert(!stands_at(s, needle, at));
    }
}

fn image_of_line(line: &Vec<char>) -> (image: Option<Vec<char>>)
    ensures
        match image {
            Some(path) => image_in_line(line@) == Some(path@),
            None => image_in_line(line@) is None,
        },
{
    let phrase = chars_of("currently displaying: image:");
    if find_text(line, &phrase).is_none() {
        return None;
    }
    let mark = chars_of("image: ");
    let at: usize = match find_text(line, &mark) {
        Some(at) => at,
        None => {
            return None;
        },
    };
    proof {
        lemma_occurrence(line@, mark@, at as int);
        assert(stands_at(line@, mark@, at as int));
    }
    let end: usize = line.len();
    let rest = slice_of(line, at + mark.len(), end);
    assert(rest@ =~= line@.skip(at + mark@.len()));
    match find_text(&rest, &mark) {
        Some(to) => {
            proof {
                lemma_occurrence(rest@, mark@, to as int);
            }
            let part = slice_of(&rest, 0, to);
            assert(part@ =~= rest@.take(to as int));
            Some(trim_chars(&part))
        },
        None => Some(trim_chars(&rest)),
    }
}

/// A daemon that does not run yet is asked five times more, half a second apart, and then given up.
pub proof fn starting_is_waited_for(asked: u32, running: bool)
    ensures
        match start_step(asked, running) {
            StartStep::Running => running,
            StartStep::AskAgain { wait_ms, asked: next } => !running && wait_ms == 500 && next == asked
                + 1 && next <= 5,
            StartStep::GiveUp => !running && asked >= 5,
        },
{
}

/// The image that a line says is currently displayed is all that follows, without white space around it.
pub proof fn a_displayed_image_is_found(front: Seq<char>, path: Seq<char>, space: Seq<char>)
    requires
        path.len() > 0,
        !is_space(path[0]),
        !is_space(path.last()),
        blank(space),
        !holds_text(path + space, "image: "@),
        first_occurrence(
            front + "currently displaying: "@ + "image: "@ + (path + space),
            "image: "@,
            front.len() + "currently displaying: "@.len() as int,
        ),
    ensures
        image_in_line(front + "currently displaying: "@ + "image: "@ + (path + space)) == Some(path),
{
    let phrase = "currently displaying: image:"@;
    let lead = "currently displaying: "@;
    let mark = "image: "@;
    let line = front + lead + mark + (path + space);
    reveal_strlit("currently displaying: image:");
    reveal_strlit("currently displaying: ");
    reveal_strlit("image: ");
    let at = front.len() + lead.len() as int;
    assert(line.subrange(front.len() as int, front.len() as int + phrase.len()) =~= phrase);
    assert(stands_at(line, phrase, front.len() as int));
    assert(stands_at(line, mark, at));
    lemma_occurrence(line, mark, at);
    assert(line.skip(at + mark.len()) =~= path + space);
    trimming_undoes_padding(Seq::empty(), path, space);
    assert(Seq::<char>::empty() + path + space =~= path + space);
}

/// Lines that speak of no image are passed over, and the first that speaks of one decides.
pub proof fn the_first_displayed_image_counts(line: Seq<char>, rest: Seq<char>)
    requires
        !line.contains('\n'),
    ensures
        shown_image(line) == image_in_line(line),
        shown_image(line + seq!['\n'] + rest) == if image_in_line(line) is Some {
            image_in_line(line)
        } else {
            shown_image(rest)
        },
{
    splitting_undoes_joining(line, '\n', rest);
    nothing_splits_without_the_mark(line, '\n');
}

/// A query that has failed tells of no image; otherwise the image is the one that the answer speaks of.
pub proof fn a_failed_query_tells_nothing(success: bool, stdout: Seq<char>, image: Option<String>)
    requires
        answers_query(success, stdout, image),
    ensures
        !success ==> image is None,
        success ==> (image is Some <==> shown_image(stdout) is Some),
        image matches Some(path) ==> shown_image(stdout) == Some(path@),
{
}

/// A command that has ended well is no error; any other is, and the error says what the command wrote.
pub proof fn a_failed_command_tells_why(
    success: bool,
    failure: Seq<char>,
    stderr: Seq<char>,
    r: Result<(), String>,
)
    requires
        ends(success, failure, stderr, r),
    ensures
        r is Ok <==> success,
        r matches Err(message) ==> message@.len() == failure.len() + stderr.len() && message@.skip(
            failure.len() as int,
        ) == stderr,
{
    if let Err(message) = r {
        assert(message@.skip(failure.len() as int) =~= stderr);
    }
}

} // verus!
