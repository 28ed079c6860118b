//! Paths on the SD card.

use vstd::prelude::*;
use vstd::string::StringExecFns;

verus! {

/// Path the SD card's filesystem is mounted at.
pub const MOUNT_POINT: &'static str = "/sdcard";

/// A text without the slashes it begins with.
pub open spec fn without_leading_slashes(s: Seq<char>) -> Seq<char>
    decreases s.len(),
{
    if s.len() > 0 && s[0] == '/' {
        without_leading_slashes(s.skip(1))
    } else {
        s
    }
}

/// The absolute path of a file on the card.
pub open spec fn card_path(relative: Seq<char>) -> Seq<char> {
    MOUNT_POINT@ + "/"@ + without_leading_slashes(relative)
}

/// Build an absolute path under the SD-card mount point.
pub fn path(relative: &str) -> (p: String)
    ensures
        p@ == card_path(relative@),
{
    let n: usize = relative.unicode_len();
    let mut at: usize = 0;
    assert(relative@.skip(0) =~= relative@);
    while at < n && relative.get_char(at) == '/'
        invariant
            n == relative@.len(),
            at <= n,
            without_leading_slashes(relative@) == without_leading_slashes(
                relative@.skip(at as int),
            ),
        decreases n - at,
    {
        assert(relative@.skip(at as int).skip(1) =~= relative@.skip(at + 1));
        at = at + 1;
    }
    let rest: &str = relative.substring_char(at, n);
    assert(rest@ =~= relative@.skip(at as int));
    let mut p: String = MOUNT_POINT.to_owned();
    p.append("/");
    p.append(rest);
    p
}

/// A path that does not begin with a slash stands below the mount point as it is.
pub proof fn law_paths_stand_below_the_mount_point(relative: Seq<char>)
    requires
        relative.len() > 0 ==> relative[0] != '/',
    ensures
        card_path(relative) == "/sdcard/"@ + relative,
{
    reveal_strlit("/sdcard");
    reveal_strlit("/");
    reveal_strlit("/sdcard/");
    assert("/sdcard"@ + "/"@ =~= "/sdcard/"@);
}

/// However many slashes a path begins with, it names the same file below the mount point.
pub proof fn law_leading_slashes_do_not_matter(relative: Seq<char>)
    ensures
        card_path(seq!['/'] + relative) == card_path(relative),
{
    assert((seq!['/'] + relative).skip(1) =~= relative);
}

} // verus!
