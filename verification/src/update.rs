//! Bringing the meter up to date.
use crate::bytes;
use crate::text;
use vstd::prelude::*;
use vstd::string::*;

verus! {

/// What the user is asked when there is an update.
pub open spec fn prompt(current: Seq<char>, latest: Seq<char>) -> Seq<char> {
    "A new update is available!\n\nCurrent: "@ + current + "\nLatest: "@ + latest
        + "\n\nDownload and install now?"@
}

/// What the user is asked when there is an update.
pub fn update_prompt(current: &str, latest: &str) -> (r: String)
    ensures
        r@ == prompt(current@, latest@),
{
    let mut r = "A new update is available!\n\nCurrent: ".to_owned();
    r.append(current);
    r.append("\nLatest: ");
    r.append(latest);
    r.append("\n\nDownload and install now?");
    r
}

/// What the user is told when the download failed.
pub fn failure_message(error: &str) -> (r: String)
    ensures
        r@ == "Download failed: "@ + error@ + "\n\nPlease download manually."@,
{
    let mut r = "Download failed: ".to_owned();
    r.append(error);
    r.append("\n\nPlease download manually.");
    r
}

/// What follows the user's answer.
#[derive(Debug, Clone, Copy, PartialEq, Eq, Structural)]
pub enum UpdateStep {
    /// Nothing.
    Leave,
    /// Download the installer and run it.
    Install,
    /// Show the page from which it can be had.
    ShowReleases,
}

/// What follows the user's answer: without an installer to download, the page is shown.
pub fn step_after_answer(accepted: bool, msi_url: &str) -> (r: UpdateStep)
    ensures
        r == (if !accepted {
            UpdateStep::Leave
        } else if msi_url@.len() > 0 {
            UpdateStep::Install
        } else {
            UpdateStep::ShowReleases
        }),
{
    if !accepted {
        UpdateStep::Leave
    } else if msi_url.is_empty() {
        UpdateStep::ShowReleases
    } else {
        UpdateStep::Install
    }
}

/// What stands behind the last slash.
pub open spec fn after_last_slash(url: Seq<char>) -> Seq<char> {
    match bytes::last_at(url, '/') {
        Some(i) => url.skip(i + 1),
        None => url,
    }
}

/// The name of the file that a link leads to: what stands behind its last slash.
pub fn file_name(url: &str) -> (r: &str)
    ensures
        r@ == after_last_slash(url@),
{
    let cs = text::chars_of(url);
    let n: usize = cs.len();
    let mut i: usize = n;
    assert(url@.take(n as int) =~= url@);
    while i > 0
        invariant
            i <= n,
            n == cs@.len(),
            cs@ == url@,
            bytes::last_at(url@, '/') == bytes::last_at(url@.take(i as int), '/'),
        decreases i,
    {
        assert(url@.take(i as int).drop_last() =~= url@.take(i - 1));
        assert(url@.take(i as int).last() == url@[i - 1]);
        if cs[i - 1] == '/' {
            assert(url@.skip(i as int) =~= url@.subrange(i as int, n as int));
            return url.substring_char(i, n);
        }
        i -= 1;
    }
    url
}

/// The text without the backslashes at its end.
pub open spec fn without_backslashes(s: Seq<char>) -> Seq<char>
    decreases s.len(),
{
    if s.len() > 0 && s.last() == '\\' {
        without_backslashes(s.drop_last())
    } else {
        s
    }
}

/// A directory without the backslashes at its end.
pub fn trim_backslashes(dir: &str) -> (r: &str)
    ensures
        r@ == without_backslashes(dir@),
{
    let cs = text::chars_of(dir);
    let mut n: usize = cs.len();
    assert(dir@.take(n as int) =~= dir@);
    while n > 0 && cs[n - 1] == '\\'
        invariant
            n <= cs@.len(),
            cs@ == dir@,
            without_backslashes(dir@) == without_backslashes(dir@.take(n as int)),
        decreases n,
    {
        assert(dir@.take(n as int).last() == dir@[n - 1]);
        assert(dir@.take(n as int).drop_last() =~= dir@.take(n - 1));
        n -= 1;
    }
    assert(n > 0 ==> dir@.take(n as int).last() == dir@[n - 1]);
    assert(dir@.take(n as int) =~= dir@.subrange(0, n as int));
    dir.substring_char(0, n)
}

/// No backslash is left at the end, so that none stands before a closing quote; and nothing but
/// backslashes is taken away.
pub proof fn law_no_backslash_before_the_quote(dir: Seq<char>)
    ensures
        ({
            let r = without_backslashes(dir);
            &&& r.len() > 0 ==> r.last() != '\\'
            &&& r.len() <= dir.len()
            &&& r == dir.take(r.len() as int)
            &&& forall|i: int| r.len() <= i < dir.len() ==> dir[i] == '\\'
        }),
    decreases dir.len(),
{
    if dir.len() > 0 && dir.last() == '\\' {
        law_no_backslash_before_the_quote(dir.drop_last());
        let r = without_backslashes(dir);
        assert(dir.drop_last().take(r.len() as int) =~= dir.take(r.len() as int));
        assert forall|i: int| r.len() <= i < dir.len() implies dir[i] == '\\' by {
            if i < dir.len() - 1 {
                assert(dir.drop_last()[i] == dir[i]);
            }
        }
    } else {
        assert(dir.take(dir.len() as int) =~= dir);
    }
}

/// A text in quotes, behind a prefix.
pub open spec fn quoted(prefix: Seq<char>, s: Seq<char>) -> Seq<char> {
    prefix + "\""@ + s + "\""@
}

fn quote(prefix: &str, s: &str) -> (r: String)
    ensures
        r@ == quoted(prefix@, s@),
{
    let mut r = prefix.to_owned();
    r.append("\"");
    r.append(s);
    r.append("\"");
    r
}

/// What the installer is called with: the file, no questions, the directory of the running
/// program, and to start the program afterwards.
pub fn installer_args(msi_path: &str, program_dir: &str) -> (r: Vec<String>)
    ensures
        r@.len() == 5,
        r@[0]@ == "/i"@,
        r@[1]@ == quoted(""@, msi_path@),
        r@[2]@ == "/passive"@,
        r@[3]@ == quoted("INSTALLDIR="@, without_backslashes(program_dir@)),
        r@[4]@ == "AUTOLAUNCHAPP=1"@,
{
    let mut r: Vec<String> = Vec::new();
    r.push("/i".to_owned());
    r.push(quote("", msi_path));
    r.push("/passive".to_owned());
    r.push(quote("INSTALLDIR=", trim_backslashes(program_dir)));
    r.push("AUTOLAUNCHAPP=1".to_owned());
    r
}

/// How much of a download is there, in percent; at most all of it.
pub open spec fn percent(downloaded: u64, total: u64) -> u64 {
    let p = downloaded * 100 / (total as int);
    if p > 100 {
        100
    } else {
        p as u64
    }
}

/// How far a download is.
#[derive(Debug, Clone, Copy, PartialEq, Eq, Structural)]
pub struct Download {
    /// Size of the whole; zero while it is not known.
    pub total: u64,
    pub downloaded: u64,
    /// The percentage that was announced last.
    pub announced: u64,
}

impl Download {
    /// The download after the next piece. Amounts are machine integers: they wrap.
    pub open spec fn received(self, len: u64) -> Self {
        let downloaded = self.downloaded.wrapping_add(len);
        Download {
            downloaded,
            announced: if self.total > 0 {
                percent(downloaded, self.total)
            } else {
                self.announced
            },
            ..self
        }
    }

    /// A download that is about to begin.
    pub fn new(total: u64) -> (r: Self)
        ensures
            r == (Download { total, downloaded: 0, announced: 0 }),
    {
        Download { total, downloaded: 0, announced: 0 }
    }

    /// Takes in the length of a piece, and returns the percentage to announce, where it changed.
    pub fn receive(&mut self, len: u64) -> (r: Option<u64>)
        ensures
            *final(self) == old(self).received(len),
            r == (if final(self).announced != old(self).announced {
                Some(final(self).announced)
            } else {
                None
            }),
    {
        self.downloaded = self.downloaded.wrapping_add(len);
        if self.total > 0 {
            let p: u128 = self.downloaded as u128 * 100 / self.total as u128;
            let pct: u64 = if p > 100 {
                100
            } else {
                p as u64
            };
            if pct != self.announced {
                self.announced = pct;
                return Some(pct);
            }
        }
        None
    }
}

/// What is announced of a download only goes up, and never beyond all of it.
pub proof fn law_progress_only_goes_up(d: Download, len: u64)
    requires
        d.downloaded + len <= u64::MAX,
        d.total > 0,
        d.announced == percent(d.downloaded, d.total),
    ensures
        d.announced <= d.received(len).announced <= 100,
        d.received(len).announced == percent(d.received(len).downloaded, d.total),
        d.received(len).downloaded >= d.total ==> d.received(len).announced == 100,
{
    let a = d.downloaded * 100;
    let b = (d.downloaded + len) * 100;
    vstd::arithmetic::div_mod::lemma_div_is_ordered(a, b, d.total as int);
    if d.received(len).downloaded >= d.total {
        vstd::arithmetic::div_mod::lemma_div_is_ordered(d.total * 100, b, d.total as int);
        vstd::arithmetic::div_mod::lemma_div_multiples_vanish(100, d.total as int);
    }
}

} // verus!
