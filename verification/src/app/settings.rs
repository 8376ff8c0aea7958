//! What the patchbay is asked to show.
use vstd::prelude::*;

verus! {

/// Which kinds of entities the patchbay shows.
#[derive(Debug, Clone, Copy, PartialEq, Eq, Structural)]
pub struct Visibility {
    pub show_video: bool,
    pub show_audio: bool,
    pub show_midi: bool,
    pub show_devices: bool,
    pub show_clients: bool,
}

impl Default for Visibility {
    /// Everything starts hidden.
    fn default() -> (v: Self)
        ensures
            !v.show_video,
            !v.show_audio,
            !v.show_midi,
            !v.show_devices,
            !v.show_clients,
    {
        Visibility {
            show_video: false,
            show_audio: false,
            show_midi: false,
            show_devices: false,
            show_clients: false,
        }
    }
}

/// One of the kinds of entities that can be shown or hidden.
#[derive(Debug, Clone, Copy, PartialEq, Eq, Structural)]
pub enum Shown {
    Video,
    Audio,
    Midi,
    Devices,
    Clients,
}

impl Visibility {
    /// Whether the given kind is shown.
    pub open spec fn shows(self, kind: Shown) -> bool {
        match kind {
            Shown::Video => self.show_video,
            Shown::Audio => self.show_audio,
            Shown::Midi => self.show_midi,
            Shown::Devices => self.show_devices,
            Shown::Clients => self.show_clients,
        }
    }

    /// The same settings with `kind` flipped.
    pub open spec fn flipped(self, kind: Shown) -> Visibility {
        match kind {
            Shown::Video => Visibility { show_video: !self.show_video, ..self },
            Shown::Audio => Visibility { show_audio: !self.show_audio, ..self },
            Shown::Midi => Visibility { show_midi: !self.show_midi, ..self },
            Shown::Devices => Visibility { show_devices: !self.show_devices, ..self },
            Shown::Clients => Visibility { show_clients: !self.show_clients, ..self },
        }
    }

    /// Shows `kind` if it was hidden and hides it if it was shown.
    pub fn toggle(&mut self, kind: Shown)
        ensures
            *final(self) == old(self).flipped(kind),
    {
        match kind {
            Shown::Video => self.show_video = !self.show_video,
            Shown::Audio => self.show_audio = !self.show_audio,
            Shown::Midi => self.show_midi = !self.show_midi,
            Shown::Devices => self.show_devices = !self.show_devices,
            Shown::Clients => self.show_clients = !self.show_clients,
        }
    }
}

/// Flipping a kind changes whether that kind is shown and nothing else, and
/// flipping it again gives back the settings one started with.
pub proof fn lemma_flip(v: Visibility, kind: Shown)
    ensures
        v.flipped(kind).shows(kind) == !v.shows(kind),
        forall|other: Shown| other != kind ==> #[trigger] v.flipped(kind).shows(other) == v.shows(other),
        v.flipped(kind).flipped(kind) == v,
{
}

} // verus!
