//! The download bar: its state and what a click on its button does.

use vstd::prelude::*;
use vstd::utf8::encode_utf8;
use crate::filename::{gen_filename, filename_for, disposition_value};
use crate::header::ResponseHeaders;
use crate::location::{DownloadUrl, url_path};

verus! {

/// Where a download bar stands.
#[derive(Debug, Clone, Copy, PartialEq, Eq, Structural)]
pub enum DownloadStatus {
    /// The download has not been started, or is to be started again.
    Todownload,
    /// The download has been started, or its file was already there.
    Finished,
}

/// What a click on the bar's button leads to.
#[derive(Debug, Clone, Copy, PartialEq, Eq, Structural)]
pub enum ClickAction {
    /// Start downloading; the button hides until the download ends.
    StartDownload,
    /// The file is already there: the bar shows it complete.
    AlreadyDownloaded,
    /// The file is there: install it and take the bar away.
    Install,
    /// The file has gone: the button offers the download again.
    Restart,
}

/// The state a click leaves the bar in, and what the click leads to, given
/// whether the file is on disk.
pub open spec fn click_step(status: DownloadStatus, file_exists: bool) -> (DownloadStatus, ClickAction) {
    match status {
        DownloadStatus::Todownload => (
            DownloadStatus::Finished,
            if file_exists {
                ClickAction::AlreadyDownloaded
            } else {
                ClickAction::StartDownload
            },
        ),
        DownloadStatus::Finished => if file_exists {
            (DownloadStatus::Finished, ClickAction::Install)
        } else {
            (DownloadStatus::Todownload, ClickAction::Restart)
        },
    }
}

/// While the file is not on disk, two clicks bring the bar back to where it
/// stood, whichever state that was.
pub proof fn law_two_clicks_without_file(status: DownloadStatus)
    ensures
        click_step(click_step(status, false).0, false).0 == status,
{
}

/// While the file is on disk, a click leaves the bar finished.
pub proof fn law_click_with_file(status: DownloadStatus)
    ensures
        click_step(status, true).0 == DownloadStatus::Finished,
{
}

/// A download bar: the URL, the file name it saves under, an optional
/// display name, and where it stands.
pub struct DownloadProgressBar {
    pub status: DownloadStatus,
    pub url: DownloadUrl,
    pub fname: String,
    pub name: Option<String>,
}

impl DownloadProgressBar {
    /// A bar for `url`, whose server answered with `headers`; the file name
    /// comes from those headers or the URL.
    pub fn new(url: DownloadUrl, name: Option<String>, headers: &ResponseHeaders) -> (r: Self)
        ensures
            r.status == DownloadStatus::Todownload,
            r.url == url,
            r.name == name,
            r.fname@ == filename_for(
                encode_utf8(url_path(url.text_view())),
                None,
                disposition_value(Some(headers)),
            ),
    {
        let fname = gen_filename(&url, None, Some(headers));
        DownloadProgressBar { status: DownloadStatus::Todownload, url, fname, name }
    }

    /// A click on the button, given whether the file is on disk.
    pub fn on_click(&mut self, file_exists: bool) -> (r: ClickAction)
        ensures
            (final(self).status, r) == click_step(old(self).status, file_exists),
            final(self).url == old(self).url,
            final(self).fname == old(self).fname,
            final(self).name == old(self).name,
    {
        match self.status {
            DownloadStatus::Todownload => {
                self.status = DownloadStatus::Finished;
                if file_exists {
                    ClickAction::AlreadyDownloaded
                } else {
                    ClickAction::StartDownload
                }
            },
            DownloadStatus::Finished => {
                if file_exists {
                    ClickAction::Install
                } else {
                    self.status = DownloadStatus::Todownload;
                    ClickAction::Restart
                }
            },
        }
    }

    /// The path of the bar's file under the directory `dir` (`dir` then the
    /// file name, as written).
    pub fn file_path(&self, dir: &str) -> (r: String)
        ensures
            r@ == dir@ + self.fname@,
    {
        let mut p = dir.to_owned();
        p.append(self.fname.as_str());
        p
    }
}

} // verus!
