//! How disbot is set up.

use vstd::prelude::*;
use crate::number;
use crate::text;

verus! {

/// How disbot is set up.
#[derive(Debug)]
pub struct Config {
    /// The address that it listens on.
    pub bind: String,
    /// What a browser has to know.
    pub token: String,
    /// What a session runs when nothing else is asked for.
    pub claude_cmd: String,
    /// What the bot has to know, if there is to be a bot.
    pub tg_token: Option<String>,
    /// The owner of the bot, if it is set.
    pub tg_owner: Option<i64>,
}

/// The values of the environment variables that disbot looks at, of those that are set.
#[derive(Debug)]
pub struct Environment {
    pub bind: Option<String>,
    pub token: Option<String>,
    pub cmd: Option<String>,
    pub tg_token: Option<String>,
    pub tg_owner: Option<String>,
}

/// What an optional text holds, or else `other`.
pub open spec fn text_or(o: Option<String>, other: Seq<char>) -> Seq<char> {
    match o {
        Some(s) => s@,
        None => other,
    }
}

fn string_or(o: Option<String>, other: &str) -> (r: String)
    ensures
        r@ == text_or(o, other@),
{
    match o {
        Some(s) => s,
        None => other.to_string(),
    }
}

/// The owner that the environment sets.
pub open spec fn owner_set(o: Option<String>) -> Option<int> {
    match o {
        Some(s) => number::signed_value(text::trimmed(s@)),
        None => None,
    }
}

/// Whether a set-up is the one that follows from the environment.
pub open spec fn follows_from(env: Environment, shell: Seq<char>, r: Config) -> bool {
    &&& r.bind@ == text_or(env.bind, "127.0.0.1:7878"@)
    &&& r.token@ == text_or(env.token, "letmein"@)
    &&& r.claude_cmd@ == text_or(env.cmd, shell)
    &&& text::opt_text(r.tg_token) == (match env.tg_token {
        Some(s) if s@.len() > 0 => Some(s@),
        _ => None,
    })
    &&& match r.tg_owner {
        Some(n) => owner_set(env.tg_owner) == Some(n as int),
        None => owner_set(env.tg_owner) is None,
    }
}

/// The set-up that follows from the environment. `shell` is the shell that sessions run when the
/// environment does not say what they run.
pub fn load(env: Environment, shell: String) -> (r: Config)
    ensures
        follows_from(env, shell@, r),
{
    let tg_token = match env.tg_token {
        Some(s) => if s.as_str().is_empty() {
            None
        } else {
            Some(s)
        },
        None => None,
    };
    let tg_owner = match env.tg_owner {
        Some(s) => {
            let t = text::trim(s.as_str());
            number::parse_signed(t.as_str())
        },
        None => None,
    };
    Config {
        bind: string_or(env.bind, "127.0.0.1:7878"),
        token: string_or(env.token, "letmein"),
        claude_cmd: string_or(env.cmd, shell.as_str()),
        tg_token,
        tg_owner,
    }
}

// ---------------------------------------------------------------------------------------------
// The shell
// ---------------------------------------------------------------------------------------------

/// The shells that come into question, the best first: the user's own, if it is named, and then the
/// usual ones.
pub open spec fn shells(own: Option<Seq<char>>) -> Seq<Seq<char>> {
    let usual = seq!["/bin/zsh"@, "/bin/bash"@, "/bin/sh"@];
    match own {
        Some(s) if s.len() > 0 => seq![s] + usual,
        _ => usual,
    }
}

/// The shells that come into question, the best first.
pub fn shell_candidates(own: &Option<String>) -> (r: Vec<String>)
    ensures
        text::texts(r@) == shells(text::opt_text(*own)),
{
    let mut r: Vec<String> = Vec::new();
    match own {
        Some(s) => {
            if !s.as_str().is_empty() {
                r.push(s.clone());
            }
        },
        None => {},
    }
    r.push("/bin/zsh".to_string());
    r.push("/bin/bash".to_string());
    r.push("/bin/sh".to_string());
    assert(text::texts(r@) =~= shells(text::opt_text(*own)));
    r
}

/// The first of some shells that is there.
pub open spec fn first_there(candidates: Seq<Seq<char>>, there: Seq<bool>) -> Seq<char>
    decreases candidates.len(),
{
    if candidates.len() == 0 || there.len() == 0 {
        "/bin/sh"@
    } else if there[0] {
        candidates[0]
    } else {
        first_there(candidates.drop_first(), there.drop_first())
    }
}

/// Chooses the first shell that is there, and one that should be everywhere if none of them is.
/// `there` tells of each of the shells whether it is there.
pub fn detect_shell(candidates: &Vec<String>, there: &Vec<bool>) -> (r: String)
    ensures
        r@ == first_there(text::texts(candidates@), there@),
{
    let ghost all = text::texts(candidates@);
    let mut i: usize = 0;
    proof {
        assert(all.skip(0) =~= all);
        assert(there@.skip(0) =~= there@);
    }
    while i < candidates.len() && i < there.len()
        invariant
            i <= candidates@.len(),
            i <= there@.len(),
            all == text::texts(candidates@),
            first_there(all, there@) == first_there(all.skip(i as int), there@.skip(i as int)),
        decreases candidates@.len() - i,
    {
        proof {
            assert(all.skip(i as int).drop_first() =~= all.skip(i + 1));
            assert(there@.skip(i as int).drop_first() =~= there@.skip(i + 1));
            assert(all.skip(i as int)[0] == candidates@[i as int]@);
        }
        if there[i] {
            return candidates[i].clone();
        }
        i += 1;
    }
    "/bin/sh".to_string()
}

// ---------------------------------------------------------------------------------------------
// What the set-up follows from
// ---------------------------------------------------------------------------------------------

/// A variable that is set decides, whatever its value; the other value counts only if it is not.
pub proof fn what_is_set_counts(s: String, other: Seq<char>)
    ensures
        text_or(Some(s), other) == s@,
        text_or(None, other) == other,
{
}

/// The owner that is set is read whatever white space stands round the number.
pub proof fn owner_that_is_set(s: String, a: Seq<char>, id: i64, b: Seq<char>)
    requires
        forall|i: int| 0 <= i < a.len() ==> text::is_white_space(#[trigger] a[i]),
        forall|i: int| 0 <= i < b.len() ==> text::is_white_space(#[trigger] b[i]),
        s@ == a + number::signed_decimal(id as int) + b,
    ensures
        owner_set(Some(s)) == Some(id as int),
        owner_set(None) is None,
{
    crate::home::owner_with_space_around(a, id, b);
}

/// The user's own shell comes first, if it is named, and the usual ones come behind it.
pub proof fn own_shell_comes_first(own: Seq<char>)
    requires
        own.len() > 0,
    ensures
        shells(Some(own)).len() == 4,
        shells(Some(own))[0] == own,
        shells(Some(own)).drop_first() == shells(None),
        shells(None) == seq!["/bin/zsh"@, "/bin/bash"@, "/bin/sh"@],
        shells(Some(Seq::<char>::empty())) == shells(None),
{
    assert(shells(Some(own)).drop_first() =~= shells(None));
}

/// The shell that is chosen is there, and none of those before it is; if none is there, it is the
/// one that should be everywhere.
pub proof fn first_that_is_there(candidates: Seq<Seq<char>>, there: Seq<bool>, k: int)
    requires
        candidates.len() == there.len(),
        0 <= k <= there.len(),
        forall|i: int| 0 <= i < k ==> !#[trigger] there[i],
        k < there.len() ==> there[k],
    ensures
        first_there(candidates, there) == if k < there.len() {
            candidates[k]
        } else {
            "/bin/sh"@
        },
    decreases k,
{
    if k > 0 {
        let c = candidates.drop_first();
        let t = there.drop_first();
        assert forall|i: int| 0 <= i < k - 1 implies !#[trigger] t[i] by {
            assert(t[i] == there[i + 1]);
        }
        assert(!there[0]);
        first_that_is_there(c, t, k - 1);
    }
}

/// Each variable decides over one part of the set-up, by its whole value, and over no other part; an
/// empty token for the bot is none.
pub proof fn each_variable_counts_for_itself(env: Environment, shell: Seq<char>, r: Config)
    requires
        follows_from(env, shell, r),
    ensures
        r.bind@ == if env.bind is Some {
            env.bind->0@
        } else {
            "127.0.0.1:7878"@
        },
        r.token@ == if env.token is Some {
            env.token->0@
        } else {
            "letmein"@
        },
        r.claude_cmd@ == if env.cmd is Some {
            env.cmd->0@
        } else {
            shell
        },
        r.tg_token is Some <==> env.tg_token is Some && env.tg_token->0@.len() > 0,
        r.tg_token is Some ==> r.tg_token->0@ == env.tg_token->0@,
        r.tg_owner is Some <==> env.tg_owner is Some && number::signed_value(
            text::trimmed(env.tg_owner->0@),
        ) is Some,
        r.tg_owner is Some ==> number::signed_value(text::trimmed(env.tg_owner->0@)) == Some(
            r.tg_owner->0 as int,
        ),
{
}

} // verus!
