//! The process-controller decisions: which executable a branch launches and
//! with which arguments.  The one argument rule: the unmodified shipping
//! binary, recognized by its filename, gets the engine's file-open log flag
//! appended; every other executable launches bare.  Spawning itself is I/O
//! and stays outside.

use crate::config_store::AppConfig;
use crate::reconcile::bin_subdir;
use crate::selector::Choice;
use vstd::prelude::*;

verus! {

/// A path separator: the tool works with Windows-style paths but accepts
/// forward slashes too.
pub open spec fn is_sep(c: char) -> bool {
    c == '\\' || c == '/'
}

/// The filename part of a path: what follows the last separator.
pub open spec fn file_name_of(p: Seq<char>) -> Seq<char>
    decreases p.len(),
{
    if p.len() == 0 {
        p
    } else if is_sep(p[p.len() - 1]) {
        Seq::empty()
    } else {
        file_name_of(p.subrange(0, p.len() - 1)).push(p[p.len() - 1])
    }
}

/// The filename of the unmodified shipping binary, which is also the process
/// name that gets terminated at startup.
pub open spec fn shipping_name() -> Seq<char> {
    "Client-Win64-Shipping.exe"@
}

/// The flag the engine expects when the shipping binary is started directly.
pub open spec fn open_log_flag() -> Seq<char> {
    "-fileopenlog"@
}

/// A planned process start: the executable and its arguments.  The caller
/// spawns it detached, discarding both output streams, and never waits.
pub struct LaunchPlan {
    pub program: String,
    pub args: Vec<String>,
}

pub(crate) fn str_eq(a: &str, b: &str) -> (r: bool)
    ensures
        r == (a@ == b@),
{
    let n: usize = a.unicode_len();
    let m: usize = b.unicode_len();
    if n != m {
        return false;
    }
    let mut i: usize = 0;
    while i < n
        invariant
            i <= n,
            n == a@.len(),
            n == b@.len(),
            forall|k: int| 0 <= k < i ==> a@[k] == b@[k],
        decreases n - i,
    {
        if a.get_char(i) != b.get_char(i) {
            return false;
        }
        i = i + 1;
    }
    proof {
        assert(a@ =~= b@);
    }
    true
}

fn is_sep_char(c: char) -> (r: bool)
    ensures
        r == is_sep(c),
{
    c == '\\' || c == '/'
}

proof fn lemma_file_name_suffix(p: Seq<char>, k: int)
    requires
        0 <= k <= p.len(),
        forall|j: int| k <= j < p.len() ==> !is_sep(p[j]),
        k > 0 ==> is_sep(p[k - 1]),
    ensures
        file_name_of(p) == p.skip(k),
    decreases p.len(),
{
    if p.len() == k {
        if k == 0 {
            assert(p.skip(0) =~= p);
        } else {
            assert(p.skip(k) =~= Seq::<char>::empty());
        }
    } else {
        let q = p.subrange(0, p.len() - 1);
        lemma_file_name_suffix(q, k);
        assert(p.skip(k) =~= q.skip(k).push(p[p.len() - 1]));
    }
}

/// The filename part of `p`, as `file_name_of` gives it.
fn file_name(p: &str) -> (r: &str)
    ensures
        r@ == file_name_of(p@),
{
    let n: usize = p.unicode_len();
    let mut k: usize = n;
    while k > 0 && !is_sep_char(p.get_char(k - 1))
        invariant
            k <= n,
            n == p@.len(),
            forall|j: int| k <= j < n ==> !is_sep(p@[j]),
        decreases k,
    {
        k = k - 1;
    }
    proof {
        lemma_file_name_suffix(p@, k as int);
    }
    p.substring_char(k, n)
}

/// The launch argument rule: the shipping binary, and only it, gets the
/// file-open log flag; any other executable launches with no arguments.
pub fn plan_launch(program: String) -> (r: LaunchPlan)
    ensures
        r.program@ == program@,
        file_name_of(program@) == shipping_name() ==> r.args@.len() == 1 && r.args@[0]@
            == open_log_flag(),
        file_name_of(program@) != shipping_name() ==> r.args@.len() == 0,
{
    let name = file_name(program.as_str());
    let mut args: Vec<String> = Vec::new();
    if str_eq(name, "Client-Win64-Shipping.exe") {
        args.push(String::from_str("-fileopenlog"));
    }
    LaunchPlan { program, args }
}

/// The full path of the shipping binary under the game folder.
pub open spec fn shipping_path_spec(game_folder: Seq<char>) -> Seq<char> {
    game_folder + seq!['\\'] + bin_subdir() + seq!['\\'] + shipping_name()
}

pub fn shipping_binary_path(game_folder: &str) -> (r: String)
    ensures
        r@ == shipping_path_spec(game_folder@),
{
    let mut p = String::from_str(game_folder);
    p.append("\\");
    p.append("Client\\Binaries\\Win64");
    p.append("\\");
    p.append("Client-Win64-Shipping.exe");
    proof {
        reveal_strlit("\\");
        assert(("\\")@ =~= seq!['\\']);
        assert(p@ =~= shipping_path_spec(game_folder@));
    }
    p
}

/// Which executable the chosen branch starts: the shipping binary under the
/// game folder for "original", the configured launcher for "modded".
pub fn branch_program(cfg: &AppConfig, choice: Choice) -> (r: String)
    ensures
        choice is Original ==> r@ == shipping_path_spec(cfg.game_folder@),
        choice is Modded ==> r@ == cfg.modded_launcher@,
{
    match choice {
        Choice::Original => shipping_binary_path(cfg.game_folder.as_str()),
        Choice::Modded => cfg.modded_launcher.clone(),
    }
}

/// A shipping path built from any game folder names the shipping binary, so
/// the "original" branch always launches with the flag appended.
pub proof fn lemma_shipping_path_gets_flag(game_folder: Seq<char>)
    ensures
        file_name_of(shipping_path_spec(game_folder)) == shipping_name(),
{
    reveal_strlit("Client-Win64-Shipping.exe");
    let p = shipping_path_spec(game_folder);
    let k = p.len() - shipping_name().len();
    assert(forall|i: int| 0 <= i < shipping_name().len() ==> !is_sep(shipping_name()[i]));
    assert(forall|j: int| k <= j < p.len() ==> p[j] == shipping_name()[j - k]);
    assert(p[k - 1] == '\\');
    lemma_file_name_suffix(p, k);
    assert(p.skip(k) =~= shipping_name());
}

} // verus!
