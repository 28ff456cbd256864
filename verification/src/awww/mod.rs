//! Wallpapers: asking awww for them, and remembering which one is shown.

pub mod client;
pub mod restore;

pub use client::AwwwClient;
pub use restore::WallpaperRestore;

use vstd::prelude::*;

verus! {

/// The wallpaper daemon and the remembered wallpaper.
pub struct AwwwManager {
    pub client: AwwwClient,
    pub restore: WallpaperRestore,
}

impl AwwwManager {
    /// A manager that remembers the wallpaper in this place.
    pub fn new(restore: WallpaperRestore) -> (manager: AwwwManager)
        ensures
            manager.restore == restore,
    {
        AwwwManager { client: AwwwClient::new(), restore }
    }

    /// What is to be done in order to show an image. It is remembered once it is shown.
    pub fn set_wallpaper(&self, image_path: &str) -> (steps: Vec<WallpaperStep>)
        ensures
            wallpaper_step_views(steps@) == showing(image_path@),
    {
        let steps = vec![
            WallpaperStep::EnsureDaemon,
            WallpaperStep::Show(image_path.to_owned()),
            WallpaperStep::Remember(image_path.to_owned()),
        ];
        assert(wallpaper_step_views(steps@) =~= showing(image_path@));
        steps
    }

    /// What is to be done in order to show the remembered image, and whether that restores one.
    pub fn restore_wallpaper(&self, saved: &Option<String>) -> (plan: (Vec<WallpaperStep>, bool))
        ensures
            plan.1 == (saved is Some),
            wallpaper_step_views(plan.0@) == match saved {
                Some(path) => restoring(path@),
                None => seq![],
            },
    {
        match saved {
            Some(path) => {
                let steps = vec![WallpaperStep::EnsureDaemon, WallpaperStep::Show(path.clone())];
                assert(wallpaper_step_views(steps@) =~= restoring(path@));
                (steps, true)
            },
            None => {
                let steps: Vec<WallpaperStep> = Vec::new();
                assert(wallpaper_step_views(steps@) =~= seq![]);
                (steps, false)
            },
        }
    }

    /// What is to be done in order to remember the image that is shown, and whether there is one.
    pub fn save_current_wallpaper(&self, shown: &Option<String>) -> (plan: (
        Vec<WallpaperStep>,
        bool,
    ))
        ensures
            plan.1 == (shown is Some),
            wallpaper_step_views(plan.0@) == match shown {
                Some(path) => remembering(path@),
                None => seq![],
            },
    {
        match shown {
            Some(path) => {
                let steps = vec![WallpaperStep::Remember(path.clone())];
                assert(wallpaper_step_views(steps@) =~= remembering(path@));
                (steps, true)
            },
            None => {
                let steps: Vec<WallpaperStep> = Vec::new();
                assert(wallpaper_step_views(steps@) =~= seq![]);
                (steps, false)
            },
        }
    }
}

/// One thing to do about a wallpaper. If it fails, nothing that follows is done.
#[derive(Clone, Debug)]
pub enum WallpaperStep {
    /// Start the daemon unless it runs.
    EnsureDaemon,
    /// Show this image.
    Show(String),
    /// Remember this image.
    Remember(String),
}

/// A step as a mathematical value.
pub enum WallpaperStepView {
    EnsureDaemon,
    Show(Seq<char>),
    Remember(Seq<char>),
}

impl View for WallpaperStep {
    type V = WallpaperStepView;

    open spec fn view(&self) -> WallpaperStepView {
        match *self {
            WallpaperStep::EnsureDaemon => WallpaperStepView::EnsureDaemon,
            WallpaperStep::Show(path) => WallpaperStepView::Show(path@),
            WallpaperStep::Remember(path) => WallpaperStepView::Remember(path@),
        }
    }
}

/// Steps as mathematical values.
pub open spec fn wallpaper_step_views(steps: Seq<WallpaperStep>) -> Seq<WallpaperStepView> {
    Seq::new(steps.len(), |i: int| steps[i]@)
}

/// What shows an image and remembers it.
pub open spec fn showing(path: Seq<char>) -> Seq<WallpaperStepView> {
    seq![
        WallpaperStepView::EnsureDaemon,
        WallpaperStepView::Show(path),
        WallpaperStepView::Remember(path),
    ]
}

/// What shows an image that is remembered.
pub open spec fn restoring(path: Seq<char>) -> Seq<WallpaperStepView> {
    seq![WallpaperStepView::EnsureDaemon, WallpaperStepView::Show(path)]
}

/// What remembers an image that is shown.
pub open spec fn remembering(path: Seq<char>) -> Seq<WallpaperStepView> {
    seq![WallpaperStepView::Remember(path)]
}

} // verus!
