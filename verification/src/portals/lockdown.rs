//! The Lockdown portal's switches.
use vstd::prelude::*;

verus! {

/// The lockdown switches: everything allowed except location.
pub struct Lockdown {
    disable_printing: bool,
    disable_save_to_disk: bool,
    disable_application_handlers: bool,
    disable_location: bool,
    disable_camera: bool,
    disable_microphone: bool,
    disable_sound_output: bool,
}

impl Lockdown {
    /// The switches as `(printing, save to disk, application handlers,
    /// location, camera, microphone, sound output)`.
    pub closed spec fn switches(&self) -> (bool, bool, bool, bool, bool, bool, bool) {
        (
            self.disable_printing,
            self.disable_save_to_disk,
            self.disable_application_handlers,
            self.disable_location,
            self.disable_camera,
            self.disable_microphone,
            self.disable_sound_output,
        )
    }

    pub fn disable_printing(&self) -> (out: bool)
        ensures
            out == self.switches().0,
    {
        self.disable_printing
    }

    pub fn set_disable_printing(&mut self, v: bool)
        ensures
            final(self).switches() == (v, old(self).switches().1, old(self).switches().2, old(self).switches().3, old(self).switches().4, old(self).switches().5, old(self).switches().6),
    {
        self.disable_printing = v;
    }

    pub fn disable_save_to_disk(&self) -> (out: bool)
        ensures
            out == self.switches().1,
    {
        self.disable_save_to_disk
    }

    pub fn set_disable_save_to_disk(&mut self, v: bool)
        ensures
            final(self).switches() == (old(self).switches().0, v, old(self).switches().2, old(self).switches().3, old(self).switches().4, old(self).switches().5, old(self).switches().6),
    {
        self.disable_save_to_disk = v;
    }

    pub fn disable_application_handlers(&self) -> (out: bool)
        ensures
            out == self.switches().2,
    {
        self.disable_application_handlers
    }

    pub fn set_disable_application_handlers(&mut self, v: bool)
        ensures
            final(self).switches() == (old(self).switches().0, old(self).switches().1, v, old(self).switches().3, old(self).switches().4, old(self).switches().5, old(self).switches().6),
    {
        self.disable_application_handlers = v;
    }

    pub fn disable_location(&self) -> (out: bool)
        ensures
            out == self.switches().3,
    {
        self.disable_location
    }

    pub fn set_disable_location(&mut self, v: bool)
        ensures
            final(self).switches() == (old(self).switches().0, old(self).switches().1, old(self).switches().2, v, old(self).switches().4, old(self).switches().5, old(self).switches().6),
    {
        self.disable_location = v;
    }

    pub fn disable_camera(&self) -> (out: bool)
        ensures
            out == self.switches().4,
    {
        self.disable_camera
    }

    pub fn set_disable_camera(&mut self, v: bool)
        ensures
            final(self).switches() == (old(self).switches().0, old(self).switches().1, old(self).switches().2, old(self).switches().3, v, old(self).switches().5, old(self).switches().6),
    {
        self.disable_camera = v;
    }

    pub fn disable_microphone(&self) -> (out: bool)
        ensures
            out == self.switches().5,
    {
        self.disable_microphone
    }

    pub fn set_disable_microphone(&mut self, v: bool)
        ensures
            final(self).switches() == (old(self).switches().0, old(self).switches().1, old(self).switches().2, old(self).switches().3, old(self).switches().4, v, old(self).switches().6),
    {
        self.disable_microphone = v;
    }

    pub fn disable_sound_output(&self) -> (out: bool)
        ensures
            out == self.switches().6,
    {
        self.disable_sound_output
    }

    pub fn set_disable_sound_output(&mut self, v: bool)
        ensures
            final(self).switches() == (old(self).switches().0, old(self).switches().1, old(self).switches().2, old(self).switches().3, old(self).switches().4, old(self).switches().5, v),
    {
        self.disable_sound_output = v;
    }
}

impl Default for Lockdown {
    fn default() -> (out: Lockdown)
        ensures
            out.switches() == (false, false, false, true, false, false, false),
    {
        Lockdown {
            disable_printing: false,
            disable_save_to_disk: false,
            disable_application_handlers: false,
            disable_location: true,
            disable_camera: false,
            disable_microphone: false,
            disable_sound_output: false,
        }
    }
}

} // verus!
