//! The application's shared state: whether the user has authorized access
//! to the machine code, and the machine information read while authorized.
use vstd::prelude::*;
use crate::hardware::MachineInfo;

verus! {

/// Whether access is authorized, and the machine information cached
/// since it was.
pub struct AppState {
    pub authorized: bool,
    pub machine_info: Option<MachineInfo>,
}

/// Whether `after` is `before` with the authorization set to `authorized`:
/// withdrawing it drops the cached machine information, granting it keeps
/// it.
pub open spec fn authorization_set(before: AppState, after: AppState, authorized: bool) -> bool {
    &&& after.authorized == authorized
    &&& after.machine_info == (if authorized {
        before.machine_info
    } else {
        None
    })
}

/// What reading the cache gives: the cached machine information, unless a
/// fresh reading is asked for or nothing is cached.
pub open spec fn cached_view(s: AppState, refresh: bool) -> Option<crate::hardware::MachineInfoView> {
    if refresh {
        None
    } else {
        match s.machine_info {
            Some(info) => Some(info@),
            None => None,
        }
    }
}

impl AppState {
    /// Not authorized, nothing cached.
    pub fn new() -> (s: AppState)
        ensures
            !s.authorized,
            s.machine_info is None,
    {
        AppState { authorized: false, machine_info: None }
    }

    /// Sets the authorization; withdrawing it drops the cached machine
    /// information.
    pub fn set_authorized(&mut self, authorized: bool)
        ensures
            authorization_set(*old(self), *final(self), authorized),
    {
        self.authorized = authorized;
        if !authorized {
            self.machine_info = None;
        }
    }

    /// Caches the machine information.
    pub fn set_machine_info(&mut self, machine_info: MachineInfo)
        ensures
            final(self).authorized == old(self).authorized,
            final(self).machine_info == Some(machine_info),
    {
        self.machine_info = Some(machine_info);
    }

    /// The cached machine information, unless `refresh` asks for a new
    /// reading; `None` means it must be read (and then cached).
    pub fn machine_info(&self, refresh: bool) -> (r: Option<MachineInfo>)
        ensures
            match r {
                Some(info) => cached_view(*self, refresh) == Some(info@),
                None => cached_view(*self, refresh) is None,
            },
    {
        if refresh {
            return None;
        }
        match &self.machine_info {
            Some(info) => Some(info.clone()),
            None => None,
        }
    }

    /// Flips the authorization (the window's authorize button); returns
    /// whether the machine information must now be read afresh, which is
    /// when access has just been granted.
    pub fn toggle_authorized(&mut self) -> (refresh: bool)
        ensures
            authorization_set(*old(self), *final(self), !old(self).authorized),
            refresh == final(self).authorized,
    {
        let next = !self.authorized;
        self.set_authorized(next);
        next
    }
}

/// Flipping the authorization twice restores it, and leaves nothing
/// cached: one of the two flips withdrew it.
pub proof fn lemma_toggle_twice(s0: AppState, s1: AppState, s2: AppState)
    requires
        authorization_set(s0, s1, !s0.authorized),
        authorization_set(s1, s2, !s1.authorized),
    ensures
        s2.authorized == s0.authorized,
        s2.machine_info is None,
{
}

/// Withdrawing the authorization forgets the machine information: nothing
/// is cached, so it cannot be read back until it is granted and read anew.
pub proof fn lemma_withdrawal_forgets(before: AppState, after: AppState)
    requires
        authorization_set(before, after, false),
    ensures
        !after.authorized,
        cached_view(after, false) is None,
{
}

/// What is cached is what is read back: after caching `info`, reading the
/// cache without asking for a fresh reading gives `info`.
pub proof fn lemma_cache_read_back(before: AppState, after: AppState, info: MachineInfo)
    requires
        after.authorized == before.authorized,
        after.machine_info == Some(info),
    ensures
        cached_view(after, false) == Some(info@),
        cached_view(after, true) is None,
{
}

} // verus!
