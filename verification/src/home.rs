//! The user's home directory, and the paths that lead from it.

use vstd::prelude::*;
use crate::number;
use crate::text;
use crate::text::join_path;

verus! {

/// The directory that a session starts in when none is asked for.
pub open spec fn home_or_root(home: Option<Seq<char>>) -> Seq<char> {
    match home {
        Some(h) => h,
        None => "/"@,
    }
}

/// The directory that a session starts in when none is asked for: the home directory, or the root
/// if there is no home directory.
pub fn default_cwd(home: &Option<String>) -> (r: String)
    ensures
        r@ == home_or_root(text::opt_text(*home)),
{
    match home {
        Some(h) => h.clone(),
        None => "/".to_string(),
    }
}

/// What a path stands for when a tilde in front of it means the home directory.
pub open spec fn tilde_expanded(p: Seq<char>, home: Option<Seq<char>>) -> Seq<char> {
    match home {
        Some(h) => if "~/"@.is_prefix_of(p) {
            h + "/"@ + p.skip(2)
        } else if p == "~"@ {
            h
        } else {
            p
        },
        None => p,
    }
}

/// Puts the home directory in place of the tilde that a path may start with. Without a home
/// directory the path stays as it is.
pub fn expand_tilde(p: &str, home: &Option<String>) -> (r: String)
    ensures
        r@ == tilde_expanded(p@, text::opt_text(*home)),
{
    match home {
        Some(h) => {
            proof {
                reveal_strlit("~/");
            }
            match text::strip_prefix(p, "~/") {
                Some(rest) => text::around(h.as_str(), "/", rest.as_str()),
                None => if text::same(p, "~") {
                    h.clone()
                } else {
                    p.to_string()
                },
            }
        },
        None => p.to_string(),
    }
}

/// The directory of disbot's own files.
pub open spec fn state_dir_in(home: Option<Seq<char>>) -> Seq<char> {
    text::joined(
        match home {
            Some(h) => h,
            None => "."@,
        },
        ".disbot"@,
    )
}

/// The directory of disbot's own files: in the home directory, or where the program was started
/// if there is no home directory.
pub fn disbot_state_dir(home: &Option<String>) -> (r: String)
    ensures
        r@ == state_dir_in(text::opt_text(*home)),
{
    match home {
        Some(h) => join_path(h.as_str(), ".disbot"),
        None => join_path(".", ".disbot"),
    }
}

/// The file that the sessions are written down in.
pub fn meta_path(home: &Option<String>) -> (r: String)
    ensures
        r@ == text::joined(state_dir_in(text::opt_text(*home)), "sessions.json"@),
{
    let dir = disbot_state_dir(home);
    join_path(dir.as_str(), "sessions.json")
}

/// The file that the owner is written down in, if there is a home directory.
pub fn owner_path(home: &Option<String>) -> (r: Option<String>)
    ensures
        match text::opt_text(*home) {
            Some(h) => text::opt_text(r) == Some(text::joined(h, ".disbot-owner"@)),
            None => r is None,
        },
{
    match home {
        Some(h) => Some(join_path(h.as_str(), ".disbot-owner")),
        None => None,
    }
}

/// The owner that a text names.
pub open spec fn owner_in(s: Seq<char>) -> Option<int> {
    number::signed_value(text::trimmed(s))
}

/// Reads the owner from what the owner's file holds, if it could be read.
pub fn load_owner_from_disk(file: &Option<String>) -> (r: Option<i64>)
    ensures
        match r {
            Some(id) => file is Some && owner_in(text::opt_text(*file)->0) == Some(id as int),
            None => file is Some ==> owner_in(text::opt_text(*file)->0) is None,
        },
{
    match file {
        Some(s) => {
            let t = text::trim(s.as_str());
            number::parse_signed(t.as_str())
        },
        None => None,
    }
}

/// What the owner's file is to hold.
pub fn save_owner_to_disk(id: i64) -> (r: String)
    ensures
        r@ == number::signed_decimal(id as int),
{
    number::write_signed(id)
}

/// The owner that was written down is the owner that is read back.
pub proof fn owner_read_back(id: i64)
    ensures
        owner_in(number::signed_decimal(id as int)) == Some(id as int),
{
    number::lemma_signed_decimal_is_dark(id as int);
    text::lemma_trimmed_dark(number::signed_decimal(id as int));
    number::signed_read_back(id);
}

/// A tilde at the front of a path, alone or before a slash, stands for the home directory. A path
/// that does not start so stays as it is, and so does every path if there is no home directory.
pub proof fn tildes_stand_for_home(home: Seq<char>, rest: Seq<char>, p: Seq<char>)
    ensures
        tilde_expanded("~"@, Some(home)) == home,
        tilde_expanded("~/"@ + rest, Some(home)) == home.push('/') + rest,
        p.len() == 0 || p[0] != '~' || (p.len() > 1 && p[1] != '/') ==> tilde_expanded(
            p,
            Some(home),
        ) == p,
        tilde_expanded(p, None) == p,
{
    reveal_strlit("~/");
    reveal_strlit("~");
    reveal_strlit("/");
    let t = "~/"@ + rest;
    assert("~"@.len() == 1 && "~"@[0] == '~');
    assert("~/"@.len() == 2 && "~/"@[0] == '~' && "~/"@[1] == '/');
    assert("~/"@ =~= t.subrange(0, 2));
    assert(t.skip(2) =~= rest);
    assert(home + "/"@ + rest =~= home.push('/') + rest);
    assert(!("~/"@.is_prefix_of("~"@)));
    if p.len() == 0 || p[0] != '~' || (p.len() > 1 && p[1] != '/') {
        assert(p != "~"@);
        if "~/"@.is_prefix_of(p) {
            assert(p.subrange(0, 2)[0] == p[0] && p.subrange(0, 2)[1] == p[1]);
        }
    }
}

/// A session starts in the home directory, or in the root if there is none.
pub proof fn sessions_start_at_home(home: Seq<char>)
    ensures
        home_or_root(Some(home)) == home,
        home_or_root(None) == "/"@,
{
}

/// disbot's own files lie inside the home directory, or where the program was started if there is
/// none.
pub proof fn files_lie_at_home(home: Seq<char>)
    requires
        home.len() > 0,
        home[home.len() - 1] != '/',
    ensures
        state_dir_in(Some(home)) == home + "/.disbot"@,
        state_dir_in(None) == "./.disbot"@,
{
    reveal_strlit(".");
    reveal_strlit(".disbot");
    reveal_strlit("/.disbot");
    reveal_strlit("./.disbot");
    assert(state_dir_in(Some(home)) =~= home + "/.disbot"@);
    assert(state_dir_in(None) =~= "./.disbot"@);
}

/// The owner is read whatever white space stands round the number, and nothing but a number is read
/// as one.
pub proof fn owner_with_space_around(a: Seq<char>, id: i64, b: Seq<char>)
    requires
        forall|i: int| 0 <= i < a.len() ==> text::is_white_space(#[trigger] a[i]),
        forall|i: int| 0 <= i < b.len() ==> text::is_white_space(#[trigger] b[i]),
    ensures
        owner_in(a + number::signed_decimal(id as int) + b) == Some(id as int),
{
    let m = number::signed_decimal(id as int);
    number::lemma_signed_decimal_is_dark(id as int);
    number::signed_read_back(id);
    assert(m.len() > 0) by {
        if m.len() == 0 {
            assert(number::signed_value(m) is None);
        }
    }
    assert(!text::is_white_space(m[0]) && !text::is_white_space(m[m.len() - 1]));
    text::space_around_is_cut_off(a, m, b);
}

} // verus!
