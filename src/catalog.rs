use vstd::prelude::*;

verus! {

/// The categorical codes that a replay or a database file may hold.
///
/// Every code read from a file is checked against this catalogue; a code that
/// it does not list makes the read fail.  Characters are identified by their
/// internal code throughout.
pub struct CodeCatalog {
    /// Internal character codes that are known.
    pub characters: Vec<u8>,
    /// For each external character code (the index), the internal code it
    /// stands for, if any.  Holds exactly 256 entries.
    pub external_characters: Vec<Option<u8>>,
    /// Internal codes of characters that bring a follower companion.
    pub followers: Vec<u8>,
    /// Valid (internal character, colour) pairs.
    pub colours: Vec<(u8, u8)>,
    /// Known stage codes.
    pub stages: Vec<u16>,
    /// Valid (internal character, action-state code) pairs.
    pub action_states: Vec<(u8, u16)>,
    /// Valid (internal character, broad-state code) pairs.
    pub broad_states: Vec<(u8, u16)>,
    /// Valid (internal character, high-level action code) pairs.
    pub actions: Vec<(u8, u16)>,
}

impl CodeCatalog {
    pub open spec fn wf(&self) -> bool {
        self.external_characters@.len() == 256
    }

    pub open spec fn character_known(&self, c: u8) -> bool {
        self.characters@.contains(c)
    }

    pub open spec fn external_spec(&self, e: u8) -> Option<u8> {
        self.external_characters@[e as int]
    }

    pub open spec fn has_follower_spec(&self, c: u8) -> bool {
        self.followers@.contains(c)
    }

    pub open spec fn colour_known(&self, c: u8, colour: u8) -> bool {
        self.colours@.contains((c, colour))
    }

    pub open spec fn stage_known(&self, s: u16) -> bool {
        self.stages@.contains(s)
    }

    pub open spec fn action_state_known(&self, c: u8, code: u16) -> bool {
        self.action_states@.contains((c, code))
    }

    pub open spec fn broad_state_known(&self, c: u8, code: u16) -> bool {
        self.broad_states@.contains((c, code))
    }

    pub open spec fn action_known(&self, c: u8, code: u16) -> bool {
        self.actions@.contains((c, code))
    }

    pub fn is_character(&self, c: u8) -> (r: bool)
        ensures
            r == self.character_known(c),
    {
        contains_u8(&self.characters, c)
    }

    pub fn from_external(&self, e: u8) -> (r: Option<u8>)
        requires
            self.wf(),
        ensures
            r == self.external_spec(e),
    {
        self.external_characters[e as usize]
    }

    pub fn has_follower(&self, c: u8) -> (r: bool)
        ensures
            r == self.has_follower_spec(c),
    {
        contains_u8(&self.followers, c)
    }

    pub fn is_colour(&self, c: u8, colour: u8) -> (r: bool)
        ensures
            r == self.colour_known(c, colour),
    {
        contains_u8_u8(&self.colours, c, colour)
    }

    pub fn is_stage(&self, s: u16) -> (r: bool)
        ensures
            r == self.stage_known(s),
    {
        let mut i: usize = 0;
        while i < self.stages.len()
            invariant
                i <= self.stages@.len(),
                forall|j: int| 0 <= j < i ==> self.stages@[j] != s,
            decreases self.stages@.len() - i,
        {
            if self.stages[i] == s {
                return true;
            }
            i += 1;
        }
        false
    }

    pub fn is_action_state(&self, c: u8, code: u16) -> (r: bool)
        ensures
            r == self.action_state_known(c, code),
    {
        contains_u8_u16(&self.action_states, c, code)
    }

    pub fn is_broad_state(&self, c: u8, code: u16) -> (r: bool)
        ensures
            r == self.broad_state_known(c, code),
    {
        contains_u8_u16(&self.broad_states, c, code)
    }

    pub fn is_action(&self, c: u8, code: u16) -> (r: bool)
        ensures
            r == self.action_known(c, code),
    {
        contains_u8_u16(&self.actions, c, code)
    }
}

fn contains_u8(v: &Vec<u8>, x: u8) -> (r: bool)
    ensures
        r == v@.contains(x),
{
    let mut i: usize = 0;
    while i < v.len()
        invariant
            i <= v@.len(),
            forall|j: int| 0 <= j < i ==> v@[j] != x,
        decreases v@.len() - i,
    {
        if v[i] == x {
            return true;
        }
        i += 1;
    }
    false
}

fn contains_u8_u8(v: &Vec<(u8, u8)>, a: u8, b: u8) -> (r: bool)
    ensures
        r == v@.contains((a, b)),
{
    let mut i: usize = 0;
    while i < v.len()
        invariant
            i <= v@.len(),
            forall|j: int| 0 <= j < i ==> v@[j] != (a, b),
        decreases v@.len() - i,
    {
        if v[i].0 == a && v[i].1 == b {
            return true;
        }
        i += 1;
    }
    false
}

fn contains_u8_u16(v: &Vec<(u8, u16)>, a: u8, b: u16) -> (r: bool)
    ensures
        r == v@.contains((a, b)),
{
    let mut i: usize = 0;
    while i < v.len()
        invariant
            i <= v@.len(),
            forall|j: int| 0 <= j < i ==> v@[j] != (a, b),
        decreases v@.len() - i,
    {
        if v[i].0 == a && v[i].1 == b {
            return true;
        }
        i += 1;
    }
    false
}

} // verus!
