//! Staff roles as a closed set, with the single merge that roster
//! synchronization uses.

use vstd::prelude::*;
use crate::text::same_text;

verus! {

/// A role that a controller can hold at the facility.
#[derive(Clone, Copy, PartialEq, Eq, Structural, Debug)]
pub enum Role {
    Atm,
    Datm,
    Ta,
    Ec,
    Fe,
    Wm,
    Aec,
    Afe,
    Awm,
    Mtr,
    Ins,
}

/// The short code under which a role is stored and reported.
pub open spec fn role_code(r: Role) -> Seq<char> {
    match r {
        Role::Atm => "ATM"@,
        Role::Datm => "DATM"@,
        Role::Ta => "TA"@,
        Role::Ec => "EC"@,
        Role::Fe => "FE"@,
        Role::Wm => "WM"@,
        Role::Aec => "AEC"@,
        Role::Afe => "AFE"@,
        Role::Awm => "AWM"@,
        Role::Mtr => "MTR"@,
        Role::Ins => "INS"@,
    }
}

/// The role whose code is `s`, if any.
pub open spec fn role_of_code(s: Seq<char>) -> Option<Role> {
    if s == "ATM"@ {
        Some(Role::Atm)
    } else if s == "DATM"@ {
        Some(Role::Datm)
    } else if s == "TA"@ {
        Some(Role::Ta)
    } else if s == "EC"@ {
        Some(Role::Ec)
    } else if s == "FE"@ {
        Some(Role::Fe)
    } else if s == "WM"@ {
        Some(Role::Wm)
    } else if s == "AEC"@ {
        Some(Role::Aec)
    } else if s == "AFE"@ {
        Some(Role::Afe)
    } else if s == "AWM"@ {
        Some(Role::Awm)
    } else if s == "MTR"@ {
        Some(Role::Mtr)
    } else if s == "INS"@ {
        Some(Role::Ins)
    } else {
        None
    }
}

impl Role {
    /// The role that the code names, if it names one.
    pub fn from_code(s: &str) -> (r: Option<Role>)
        ensures
            r == role_of_code(s@),
    {
        if same_text(s, "ATM") {
            Some(Role::Atm)
        } else if same_text(s, "DATM") {
            Some(Role::Datm)
        } else if same_text(s, "TA") {
            Some(Role::Ta)
        } else if same_text(s, "EC") {
            Some(Role::Ec)
        } else if same_text(s, "FE") {
            Some(Role::Fe)
        } else if same_text(s, "WM") {
            Some(Role::Wm)
        } else if same_text(s, "AEC") {
            Some(Role::Aec)
        } else if same_text(s, "AFE") {
            Some(Role::Afe)
        } else if same_text(s, "AWM") {
            Some(Role::Awm)
        } else if same_text(s, "MTR") {
            Some(Role::Mtr)
        } else if same_text(s, "INS") {
            Some(Role::Ins)
        } else {
            None
        }
    }

    /// The code of the role.
    pub fn code(&self) -> (r: String)
        ensures
            r@ == role_code(*self),
    {
        match self {
            Role::Atm => String::from_str("ATM"),
            Role::Datm => String::from_str("DATM"),
            Role::Ta => String::from_str("TA"),
            Role::Ec => String::from_str("EC"),
            Role::Fe => String::from_str("FE"),
            Role::Wm => String::from_str("WM"),
            Role::Aec => String::from_str("AEC"),
            Role::Afe => String::from_str("AFE"),
            Role::Awm => String::from_str("AWM"),
            Role::Mtr => String::from_str("MTR"),
            Role::Ins => String::from_str("INS"),
        }
    }
}

/// A set of roles, one flag per role.
#[derive(Clone, Copy, PartialEq, Eq, Structural, Debug)]
pub struct RoleSet {
    pub atm: bool,
    pub datm: bool,
    pub ta: bool,
    pub ec: bool,
    pub fe: bool,
    pub wm: bool,
    pub aec: bool,
    pub afe: bool,
    pub awm: bool,
    pub mtr: bool,
    pub ins: bool,
}

impl RoleSet {
    /// Whether the set holds `r`.
    pub open spec fn has(self, r: Role) -> bool {
        match r {
            Role::Atm => self.atm,
            Role::Datm => self.datm,
            Role::Ta => self.ta,
            Role::Ec => self.ec,
            Role::Fe => self.fe,
            Role::Wm => self.wm,
            Role::Aec => self.aec,
            Role::Afe => self.afe,
            Role::Awm => self.awm,
            Role::Mtr => self.mtr,
            Role::Ins => self.ins,
        }
    }

    /// The roles of the set.
    pub open spec fn view_set(self) -> Set<Role> {
        Set::new(|r: Role| self.has(r))
    }

    /// The union of two sets, as a value.
    pub open spec fn spec_union(self, o: RoleSet) -> RoleSet {
        RoleSet {
            atm: self.atm || o.atm,
            datm: self.datm || o.datm,
            ta: self.ta || o.ta,
            ec: self.ec || o.ec,
            fe: self.fe || o.fe,
            wm: self.wm || o.wm,
            aec: self.aec || o.aec,
            afe: self.afe || o.afe,
            awm: self.awm || o.awm,
            mtr: self.mtr || o.mtr,
            ins: self.ins || o.ins,
        }
    }

    /// The set with `r` added.
    pub open spec fn spec_with(self, r: Role) -> RoleSet {
        match r {
            Role::Atm => RoleSet { atm: true, ..self },
            Role::Datm => RoleSet { datm: true, ..self },
            Role::Ta => RoleSet { ta: true, ..self },
            Role::Ec => RoleSet { ec: true, ..self },
            Role::Fe => RoleSet { fe: true, ..self },
            Role::Wm => RoleSet { wm: true, ..self },
            Role::Aec => RoleSet { aec: true, ..self },
            Role::Afe => RoleSet { afe: true, ..self },
            Role::Awm => RoleSet { awm: true, ..self },
            Role::Mtr => RoleSet { mtr: true, ..self },
            Role::Ins => RoleSet { ins: true, ..self },
        }
    }

    /// The set without roles.
    pub fn empty() -> (r: RoleSet)
        ensures
            r.view_set() == Set::<Role>::empty(),
            forall|x: Role| !r.has(x),
    {
        let r = RoleSet {
            atm: false,
            datm: false,
            ta: false,
            ec: false,
            fe: false,
            wm: false,
            aec: false,
            afe: false,
            awm: false,
            mtr: false,
            ins: false,
        };
        assert(r.view_set() =~= Set::<Role>::empty());
        r
    }

    /// Whether the set holds `r`.
    pub fn contains(&self, r: Role) -> (b: bool)
        ensures
            b == self.has(r),
    {
        match r {
            Role::Atm => self.atm,
            Role::Datm => self.datm,
            Role::Ta => self.ta,
            Role::Ec => self.ec,
            Role::Fe => self.fe,
            Role::Wm => self.wm,
            Role::Aec => self.aec,
            Role::Afe => self.afe,
            Role::Awm => self.awm,
            Role::Mtr => self.mtr,
            Role::Ins => self.ins,
        }
    }

    /// Add `r` to the set.
    pub fn insert(&mut self, r: Role)
        ensures
            *final(self) == old(self).spec_with(r),
            forall|x: Role| #[trigger] final(self).has(x) == (old(self).has(x) || x == r),
    {
        match r {
            Role::Atm => self.atm = true,
            Role::Datm => self.datm = true,
            Role::Ta => self.ta = true,
            Role::Ec => self.ec = true,
            Role::Fe => self.fe = true,
            Role::Wm => self.wm = true,
            Role::Aec => self.aec = true,
            Role::Afe => self.afe = true,
            Role::Awm => self.awm = true,
            Role::Mtr => self.mtr = true,
            Role::Ins => self.ins = true,
        }
    }

    /// The roles held by either set. Automatic synchronization merges with
    /// this alone, so it only ever adds roles.
    pub fn union(&self, o: &RoleSet) -> (r: RoleSet)
        ensures
            r == self.spec_union(*o),
            r.view_set() == self.view_set().union(o.view_set()),
    {
        let r = RoleSet {
            atm: self.atm || o.atm,
            datm: self.datm || o.datm,
            ta: self.ta || o.ta,
            ec: self.ec || o.ec,
            fe: self.fe || o.fe,
            wm: self.wm || o.wm,
            aec: self.aec || o.aec,
            afe: self.afe || o.afe,
            awm: self.awm || o.awm,
            mtr: self.mtr || o.mtr,
            ins: self.ins || o.ins,
        };
        assert(r.view_set() =~= self.view_set().union(o.view_set()));
        r
    }

    /// The set of the roles whose codes are listed; codes that name no role
    /// are passed over.
    pub fn from_codes(codes: &Vec<String>) -> (r: RoleSet)
        ensures
            forall|x: Role| #[trigger] r.has(x) <==> exists|i: int|
                0 <= i < codes@.len() && role_of_code(#[trigger] codes@[i]@) == Some(x),
    {
        let mut r = RoleSet::empty();
        let mut i: usize = 0;
        while i < codes.len()
            invariant
                i <= codes@.len(),
                forall|x: Role| #[trigger] r.has(x) <==> exists|j: int|
                    0 <= j < i && role_of_code(#[trigger] codes@[j]@) == Some(x),
            decreases codes@.len() - i,
        {
            let found = Role::from_code(codes[i].as_str());
            let ghost prev = r;
            match found {
                Some(x) => {
                    r.insert(x);
                },
                None => {},
            }
            proof {
                assert forall|y: Role| #[trigger] r.has(y) <==> exists|j: int|
                    0 <= j < i + 1 && role_of_code(#[trigger] codes@[j]@) == Some(y) by {
                    assert(r.has(y) == (prev.has(y) || found == Some(y)));
                    if prev.has(y) {
                        let j = choose|j: int| 0 <= j < i && role_of_code(#[trigger] codes@[j]@) == Some(y);
                        assert(0 <= j < i + 1);
                    }
                    if found == Some(y) {
                        assert(role_of_code(codes@[i as int]@) == Some(y));
                    }
                    if exists|j: int| 0 <= j < i + 1 && role_of_code(#[trigger] codes@[j]@) == Some(y) {
                        let j = choose|j: int| 0 <= j < i + 1 && role_of_code(#[trigger] codes@[j]@) == Some(y);
                        if j == i {
                            assert(found == Some(y));
                        } else {
                            assert(prev.has(y));
                        }
                    }
                }
            }
            i = i + 1;
        }
        r
    }

    /// The codes of the roles in the set, in declaration order.
    pub open spec fn code_list(self) -> Seq<Seq<char>> {
        Seq::<Seq<char>>::empty()
            + (if self.atm { seq![role_code(Role::Atm)] } else { seq![] })
            + (if self.datm { seq![role_code(Role::Datm)] } else { seq![] })
            + (if self.ta { seq![role_code(Role::Ta)] } else { seq![] })
            + (if self.ec { seq![role_code(Role::Ec)] } else { seq![] })
            + (if self.fe { seq![role_code(Role::Fe)] } else { seq![] })
            + (if self.wm { seq![role_code(Role::Wm)] } else { seq![] })
            + (if self.aec { seq![role_code(Role::Aec)] } else { seq![] })
            + (if self.afe { seq![role_code(Role::Afe)] } else { seq![] })
            + (if self.awm { seq![role_code(Role::Awm)] } else { seq![] })
            + (if self.mtr { seq![role_code(Role::Mtr)] } else { seq![] })
            + (if self.ins { seq![role_code(Role::Ins)] } else { seq![] })
    }

    /// The codes of the roles in the set, in declaration order.
    pub fn codes(&self) -> (r: Vec<String>)
        ensures
            r@.map_values(|c: String| c@) == self.code_list(),
    {
        let mut r: Vec<String> = Vec::new();
        push_code_if(&mut r, self.atm, Role::Atm);
        push_code_if(&mut r, self.datm, Role::Datm);
        push_code_if(&mut r, self.ta, Role::Ta);
        push_code_if(&mut r, self.ec, Role::Ec);
        push_code_if(&mut r, self.fe, Role::Fe);
        push_code_if(&mut r, self.wm, Role::Wm);
        push_code_if(&mut r, self.aec, Role::Aec);
        push_code_if(&mut r, self.afe, Role::Afe);
        push_code_if(&mut r, self.awm, Role::Awm);
        push_code_if(&mut r, self.mtr, Role::Mtr);
        push_code_if(&mut r, self.ins, Role::Ins);
        assert(r@.map_values(|c: String| c@) =~= self.code_list());
        r
    }
}

/// Append the code of `x` when `held`.
fn push_code_if(r: &mut Vec<String>, held: bool, x: Role)
    ensures
        final(r)@.map_values(|c: String| c@) == old(r)@.map_values(|c: String| c@) + (if held {
            seq![role_code(x)]
        } else {
            seq![]
        }),
{
    if held {
        r.push(x.code());
    }
    assert(final(r)@.map_values(|c: String| c@) =~= old(r)@.map_values(|c: String| c@) + (if held {
        seq![role_code(x)]
    } else {
        seq![]
    }));
}

} // verus!
