//! Which ffmpeg is run, and how its processes are created.

use crate::error::RenderError;
use vstd::prelude::*;

verus! {

/// How far the search for ffmpeg has come.
pub enum FfmpegSearch {
    /// The installed program is to be tried.
    TryInstalled,
    /// The program beside the renderer's own is to be tried.
    TryBundled,
    /// This one runs.
    Found(String),
    /// None runs.
    Missing,
}

/// A program that was tried: its path, and whether it could be run.
pub struct Trial {
    pub path: String,
    pub runs: bool,
}

/// What matters of a search: where it stands, or its outcome.
pub enum SearchView {
    TryInstalled,
    TryBundled,
    Found(Seq<char>),
    Missing,
}

impl View for FfmpegSearch {
    type V = SearchView;

    open spec fn view(&self) -> SearchView {
        match self {
            FfmpegSearch::TryInstalled => SearchView::TryInstalled,
            FfmpegSearch::TryBundled => SearchView::TryBundled,
            FfmpegSearch::Found(path) => SearchView::Found(path@),
            FfmpegSearch::Missing => SearchView::Missing,
        }
    }
}

/// The search after a trial: what runs is taken; else the bundled program follows the installed
/// one, and nothing follows that. An ended search stays as it is.
pub open spec fn tried(search: SearchView, path: Seq<char>, runs: bool) -> SearchView {
    match search {
        SearchView::TryInstalled => if runs {
            SearchView::Found(path)
        } else {
            SearchView::TryBundled
        },
        SearchView::TryBundled => if runs {
            SearchView::Found(path)
        } else {
            SearchView::Missing
        },
        _ => search,
    }
}

/// Takes the outcome of a trial into account.
pub fn find_ffmpeg(search: FfmpegSearch, trial: Trial) -> (r: FfmpegSearch)
    ensures
        r@ == tried(search@, trial.path@, trial.runs),
{
    match search {
        FfmpegSearch::TryInstalled => if trial.runs {
            FfmpegSearch::Found(trial.path)
        } else {
            FfmpegSearch::TryBundled
        },
        FfmpegSearch::TryBundled => if trial.runs {
            FfmpegSearch::Found(trial.path)
        } else {
            FfmpegSearch::Missing
        },
        _ => search,
    }
}

impl FfmpegSearch {
    /// The name of the program to try next; nothing when the search has ended. The installed one
    /// is called by its bare name, the bundled one as files are named on the system.
    pub fn candidate(&self, on_windows: bool) -> (r: Option<&'static str>)
        ensures
            match self {
                FfmpegSearch::TryInstalled => r matches Some(name) && name@ == "ffmpeg"@,
                FfmpegSearch::TryBundled => r matches Some(name) && name@ == if on_windows {
                    "ffmpeg.exe"@
                } else {
                    "ffmpeg"@
                },
                _ => r is None,
            },
    {
        match self {
            FfmpegSearch::TryInstalled => Some("ffmpeg"),
            FfmpegSearch::TryBundled => if on_windows {
                Some("ffmpeg.exe")
            } else {
                Some("ffmpeg")
            },
            _ => None,
        }
    }

    /// The program that the search has found, if any yet.
    pub fn found(self) -> (r: Option<String>)
        ensures
            match r {
                Some(path) => self@ == SearchView::Found(path@),
                None => !(self@ is Found),
            },
    {
        match self {
            FfmpegSearch::Found(path) => Some(path),
            _ => None,
        }
    }
}

/// The program that was found, or the error that there is none.
pub fn require_ffmpeg(found: Option<String>) -> (r: Result<String, RenderError>)
    ensures
        match found {
            Some(path) => r == Ok::<String, RenderError>(path),
            None => r == Err::<String, RenderError>(RenderError::FfmpegNotFound),
        },
{
    match found {
        Some(path) => Ok(path),
        None => Err(RenderError::FfmpegNotFound),
    }
}

/// Two trials end the search. The installed program wins if it runs, whatever the other does;
/// else the bundled one is taken if it runs; and the search fails exactly if neither does.
pub proof fn lemma_two_trials_settle_it(
    installed: Seq<char>,
    installed_runs: bool,
    bundled: Seq<char>,
    bundled_runs: bool,
)
    ensures
        tried(
            tried(SearchView::TryInstalled, installed, installed_runs),
            bundled,
            bundled_runs,
        ) == if installed_runs {
            SearchView::Found(installed)
        } else if bundled_runs {
            SearchView::Found(bundled)
        } else {
            SearchView::Missing
        },
{
}

/// The flags that a child process is created with: on Windows the one that keeps it from opening
/// a console window, elsewhere none.
pub fn creation_flags(on_windows: bool) -> (r: Option<u32>)
    ensures
        r == if on_windows {
            Some(0x0800_0000u32)
        } else {
            None
        },
{
    if on_windows {
        Some(0x0800_0000)
    } else {
        None
    }
}

/// A search that has ended is not reopened by any trial; one that goes on takes the program that
/// runs under its own path, and never goes back to the installed one.
pub proof fn lemma_search_only_moves_on(search: SearchView, path: Seq<char>, runs: bool)
    ensures
        (search is Found || search is Missing) ==> tried(search, path, runs) == search,
        (search is TryInstalled || search is TryBundled) && runs ==> tried(search, path, runs)
            == SearchView::Found(path),
        search is TryInstalled && !runs ==> tried(search, path, runs) is TryBundled,
        search is TryBundled && !runs ==> tried(search, path, runs) is Missing,
        !(tried(search, path, runs) is TryInstalled),
{
}

/// The whole search: the installed program is asked for first and taken if it runs; else the one
/// beside the renderer is asked for, under the system's own file name, and taken if it runs; else
/// there is an error.
pub proof fn lemma_whole_search(
    start: FfmpegSearch,
    on_windows: bool,
    first: Option<&'static str>,
    installed: Trial,
    middle: FfmpegSearch,
    second: Option<&'static str>,
    bundled: Trial,
    end: FfmpegSearch,
    found: Option<String>,
    r: Result<String, RenderError>,
)
    requires
        start is TryInstalled,
        call_ensures(FfmpegSearch::candidate, (&start, on_windows), first),
        call_ensures(find_ffmpeg, (start, installed), middle),
        call_ensures(FfmpegSearch::candidate, (&middle, on_windows), second),
        call_ensures(find_ffmpeg, (middle, bundled), end),
        call_ensures(FfmpegSearch::found, (end,), found),
        call_ensures(require_ffmpeg, (found,), r),
    ensures
        first is Some && first->0@ == "ffmpeg"@,
        installed.runs ==> second is None && r is Ok && r->Ok_0@ == installed.path@,
        !installed.runs ==> second is Some && second->0@ == if on_windows {
            "ffmpeg.exe"@
        } else {
            "ffmpeg"@
        },
        !installed.runs && bundled.runs ==> r is Ok && r->Ok_0@ == bundled.path@,
        !installed.runs && !bundled.runs ==> r is Err && r->Err_0 is FfmpegNotFound,
{
}

/// Only on Windows is a child process created with a flag, the one that opens no console window.
pub proof fn lemma_flags_only_on_windows(on_windows: bool, r: Option<u32>)
    requires
        call_ensures(creation_flags, (on_windows,), r),
    ensures
        r is Some <==> on_windows,
        r matches Some(flags) ==> flags == 134217728,
{
}

} // verus!
