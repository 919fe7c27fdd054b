//! Keyboard input bookkeeping.
//!
//! An `InputField` is one logical input slot: per-frame press/release
//! counters and a held state. An `InputSystem` owns a row of fields and
//! a table from key codes to field indices; the window layer feeds it
//! raw key-down / key-up events and reads the refreshed fields once per
//! frame.

use std::collections::HashMap;
use vstd::prelude::*;

verus! {

broadcast use vstd::std_specs::hash::group_hash_axioms;

/// One logical input slot.
///
/// `down` and `up` count the key-down and key-up events seen during the
/// last frame (saturating at 255); `pressed` says whether the key is to
/// be treated as held during the current frame. The remaining fields
/// accumulate events between two refreshes.
#[derive(Clone, Copy)]
pub struct InputField {
    pub down: u8,
    pub up: u8,
    pub pressed: bool,
    prDown: u8,
    prUp: u8,
    liD: bool,
    lliD: bool,
}

/// Mathematical image of an `InputField`: all seven fields as values.
pub ghost struct InputFieldView {
    pub down: u8,
    pub up: u8,
    pub pressed: bool,
    pub prDown: u8,
    pub prUp: u8,
    pub liD: bool,
    pub lliD: bool,
}

impl View for InputField {
    type V = InputFieldView;

    closed spec fn view(&self) -> InputFieldView {
        InputFieldView {
            down: self.down,
            up: self.up,
            pressed: self.pressed,
            prDown: self.prDown,
            prUp: self.prUp,
            liD: self.liD,
            lliD: self.lliD,
        }
    }
}

/// A field in its initial state: no events seen, not pressed.
pub open spec fn field_cleared(f: InputFieldView) -> bool {
    &&& f.down == 0
    &&& f.up == 0
    &&& !f.pressed
    &&& f.prDown == 0
    &&& f.prUp == 0
    &&& !f.liD
    &&& !f.lliD
}

/// What one key-down event does to a field: bump the pending down
/// counter (saturating at 255) and mark the key as last seen down.
pub open spec fn down_applied(f: InputFieldView) -> InputFieldView {
    InputFieldView {
        prDown: if f.prDown == 255 { 255u8 } else { (f.prDown + 1) as u8 },
        liD: true,
        ..f
    }
}

/// What one key-up event does to a field: bump the pending up counter
/// (saturating at 255) and mark the key as last seen up.
pub open spec fn up_applied(f: InputFieldView) -> InputFieldView {
    InputFieldView {
        prUp: if f.prUp == 255 { 255u8 } else { (f.prUp + 1) as u8 },
        liD: false,
        ..f
    }
}

/// The per-frame refresh of one field: publish the pending counters,
/// decide `pressed` (a down event wins over an up event, otherwise the
/// state the key had at the end of the previous frame), and reset the
/// pending counters.
pub open spec fn refreshed(f: InputFieldView) -> InputFieldView {
    InputFieldView {
        down: f.prDown,
        up: f.prUp,
        pressed: if f.prDown != 0 {
            true
        } else if f.prUp != 0 {
            false
        } else {
            f.lliD
        },
        prDown: 0u8,
        prUp: 0u8,
        liD: f.liD,
        lliD: f.liD,
    }
}

impl InputField {
    /// A fresh field with every counter at zero and nothing pressed.
    pub fn new() -> (r: InputField)
        ensures
            field_cleared(r@),
    {
        InputField { down: 0, up: 0, pressed: false, prDown: 0, prUp: 0, liD: false, lliD: false }
    }

    /// Reset the field to its initial state.
    pub fn clear(&mut self)
        ensures
            field_cleared(final(self)@),
    {
        self.down = 0;
        self.up = 0;
        self.pressed = false;
        self.prUp = 0;
        self.prDown = 0;
        self.liD = false;
        self.lliD = false;
    }
}

/// The key table built from a binding list, later entries overriding
/// earlier ones that name the same key code.
pub open spec fn bindings_map(binds: Seq<(u64, usize)>) -> Map<u64, usize>
    decreases binds.len(),
{
    if binds.len() == 0 {
        Map::empty()
    } else {
        bindings_map(binds.drop_last()).insert(binds.last().0, binds.last().1)
    }
}

/// A row of input fields together with a table from key codes to field
/// indices.
pub struct InputSystem {
    pub fields: Vec<InputField>,
    pub map: HashMap<u64, usize>,
}

impl InputSystem {
    /// The key table as a mathematical map.
    pub open spec fn bindings(&self) -> Map<u64, usize> {
        self.map@
    }

    /// Every bound field index points into `fields`.
    pub open spec fn wf(&self) -> bool {
        forall|k: u64| self.bindings().contains_key(k) ==> self.bindings()[k] < self.fields@.len()
    }

    /// Build a system of `nb_fields` cleared fields with the given key
    /// bindings. Every binding must name a field index in range.
    pub fn new(nb_fields: usize, vecBindings: &Vec<(u64, usize)>) -> (r: InputSystem)
        requires
            forall|i: int|
                0 <= i < vecBindings@.len() ==> (#[trigger] vecBindings@[i]).1 < nb_fields,
        ensures
            r.wf(),
            r.fields@.len() == nb_fields,
            forall|i: int| 0 <= i < nb_fields ==> field_cleared((#[trigger] r.fields@[i])@),
            r.bindings() == bindings_map(vecBindings@),
    {
        let mut map: HashMap<u64, usize> = HashMap::with_capacity(vecBindings.len());
        let mut i: usize = 0;
        while i < vecBindings.len()
            invariant
                i <= vecBindings@.len(),
                forall|j: int|
                    0 <= j < vecBindings@.len() ==> (#[trigger] vecBindings@[j]).1 < nb_fields,
                map@ == bindings_map(vecBindings@.take(i as int)),
            decreases vecBindings@.len() - i,
        {
            let bind = vecBindings[i];
            map.insert(bind.0, bind.1);
            proof {
                assert(vecBindings@.take(i + 1 as int).drop_last() =~= vecBindings@.take(i as int));
                assert(vecBindings@.take(i + 1 as int).last() == vecBindings@[i as int]);
            }
            i = i + 1;
        }
        proof {
            assert(vecBindings@.take(vecBindings@.len() as int) =~= vecBindings@);
        }
        let mut fields: Vec<InputField> = Vec::with_capacity(nb_fields);
        let mut n: usize = 0;
        while n < nb_fields
            invariant
                n <= nb_fields,
                fields@.len() == n,
                forall|j: int| 0 <= j < n ==> field_cleared((#[trigger] fields@[j])@),
            decreases nb_fields - n,
        {
            fields.push(InputField::new());
            n = n + 1;
        }
        proof {
            lemma_bindings_map_range(vecBindings@, nb_fields as int);
        }
        InputSystem { fields, map }
    }

    /// Record one key-down event: the field bound to `updaterKey`, if
    /// any, takes a pending down; every other field is untouched.
    pub fn updateDownKey(&mut self, updaterKey: u64)
        requires
            old(self).wf(),
        ensures
            final(self).wf(),
            final(self).bindings() == old(self).bindings(),
            final(self).fields@.len() == old(self).fields@.len(),
            old(self).bindings().contains_key(updaterKey) ==> {
                let i = old(self).bindings()[updaterKey] as int;
                &&& final(self).fields@[i]@ == down_applied(old(self).fields@[i]@)
                &&& forall|j: int|
                    0 <= j < old(self).fields@.len() && j != i ==> final(self).fields@[j] == old(
                        self,
                    ).fields@[j]
            },
            !old(self).bindings().contains_key(updaterKey) ==> final(self).fields@ == old(
                self,
            ).fields@,
    {
        match self.map.get(&updaterKey) {
            Some(index) => {
                let index = *index;
                proof {
                    assert(old(self).bindings().contains_key(updaterKey));
                    assert(old(self).bindings()[updaterKey] == index);
                }
                let mut f = self.fields[index];
                if f.prDown != 255 {
                    f.prDown = f.prDown + 1;
                }
                f.liD = true;
                self.fields.set(index, f);
            },
            None => {},
        }
    }

    /// Record one key-up event: the field bound to `updaterKey`, if
    /// any, takes a pending up; every other field is untouched.
    pub fn updateUpKey(&mut self, updaterKey: u64)
        requires
            old(self).wf(),
        ensures
            final(self).wf(),
            final(self).bindings() == old(self).bindings(),
            final(self).fields@.len() == old(self).fields@.len(),
            old(self).bindings().contains_key(updaterKey) ==> {
                let i = old(self).bindings()[updaterKey] as int;
                &&& final(self).fields@[i]@ == up_applied(old(self).fields@[i]@)
                &&& forall|j: int|
                    0 <= j < old(self).fields@.len() && j != i ==> final(self).fields@[j] == old(
                        self,
                    ).fields@[j]
            },
            !old(self).bindings().contains_key(updaterKey) ==> final(self).fields@ == old(
                self,
            ).fields@,
    {
        match self.map.get(&updaterKey) {
            Some(index) => {
                let index = *index;
                proof {
                    assert(old(self).bindings().contains_key(updaterKey));
                    assert(old(self).bindings()[updaterKey] == index);
                }
                let mut f = self.fields[index];
                if f.prUp != 255 {
                    f.prUp = f.prUp + 1;
                }
                f.liD = false;
                self.fields.set(index, f);
            },
            None => {},
        }
    }

    /// Close the frame: refresh every field in order.
    pub fn refreshFields(&mut self)
        ensures
            final(self).bindings() == old(self).bindings(),
            final(self).fields@.len() == old(self).fields@.len(),
            forall|i: int|
                0 <= i < old(self).fields@.len() ==> (#[trigger] final(self).fields@[i])@
                    == refreshed(old(self).fields@[i]@),
            old(self).wf() ==> final(self).wf(),
    {
        let n = self.fields.len();
        let mut i: usize = 0;
        while i < n
            invariant
                n == self.fields@.len(),
                i <= n,
                self.map@ == old(self).map@,
                self.fields@.len() == old(self).fields@.len(),
                forall|j: int|
                    i <= j < n ==> #[trigger] self.fields@[j] == old(self).fields@[j],
                forall|j: int|
                    0 <= j < i ==> (#[trigger] self.fields@[j])@ == refreshed(
                        old(self).fields@[j]@,
                    ),
            decreases n - i,
        {
            let mut f = self.fields[i];
            f.pressed = f.lliD;
            if f.prDown != 0 {
                f.pressed = true;
            } else if f.prUp != 0 {
                f.pressed = false;
            }
            f.up = f.prUp;
            f.down = f.prDown;
            f.prUp = 0;
            f.prDown = 0;
            f.lliD = f.liD;
            self.fields.set(i, f);
            i = i + 1;
        }
    }
}

/// Some binding names field `i`.
pub open spec fn field_used(binds: Seq<(u64, usize)>, i: int) -> bool {
    exists|j: int| 0 <= j < binds.len() && (#[trigger] binds[j]).1 == i
}

/// The field indices below `n` that no binding names, lowest first.
pub open spec fn unused_spec(binds: Seq<(u64, usize)>, n: int) -> Seq<usize>
    decreases n,
{
    if n <= 0 {
        Seq::empty()
    } else if field_used(binds, n - 1) {
        unused_spec(binds, n - 1)
    } else {
        unused_spec(binds, n - 1).push((n - 1) as usize)
    }
}

/// Two bindings name the same key code (the later one wins in the
/// table).
pub open spec fn has_key_overlap(binds: Seq<(u64, usize)>) -> bool {
    exists|i: int, j: int|
        0 <= i < j < binds.len() && (#[trigger] binds[i]).0 == (#[trigger] binds[j]).0
}

/// Does any binding name field `i`?
fn binding_names_field(vecBindings: &Vec<(u64, usize)>, i: usize) -> (r: bool)
    ensures
        r == field_used(vecBindings@, i as int),
{
    let mut j: usize = 0;
    while j < vecBindings.len()
        invariant
            j <= vecBindings@.len(),
            forall|k: int| 0 <= k < j ==> (#[trigger] vecBindings@[k]).1 != i,
        decreases vecBindings@.len() - j,
    {
        if vecBindings[j].1 == i {
            proof {
                assert((vecBindings@[j as int]).1 == i as int);
            }
            return true;
        }
        j = j + 1;
    }
    false
}

/// The fields a binding list leaves unbound, lowest first. The fields
/// it reports deserve a warning: no key will ever reach them.
pub fn unused_fields(nb_fields: usize, vecBindings: &Vec<(u64, usize)>) -> (r: Vec<usize>)
    ensures
        r@ == unused_spec(vecBindings@, nb_fields as int),
{
    let mut r: Vec<usize> = Vec::new();
    let mut i: usize = 0;
    while i < nb_fields
        invariant
            i <= nb_fields,
            r@ == unused_spec(vecBindings@, i as int),
        decreases nb_fields - i,
    {
        if !binding_names_field(vecBindings, i) {
            r.push(i);
        }
        i = i + 1;
    }
    r
}

/// Whether two bindings name the same key code.
pub fn overlapping_bindings(vecBindings: &Vec<(u64, usize)>) -> (r: bool)
    ensures
        r == has_key_overlap(vecBindings@),
{
    let mut i: usize = 0;
    while i < vecBindings.len()
        invariant
            i <= vecBindings@.len(),
            forall|a: int, b: int|
                0 <= a < b < vecBindings@.len() && a < i ==> (#[trigger] vecBindings@[a]).0 != (
                #[trigger] vecBindings@[b]).0,
        decreases vecBindings@.len() - i,
    {
        let key = vecBindings[i].0;
        let mut j: usize = i + 1;
        while j < vecBindings.len()
            invariant
                i < vecBindings@.len(),
                i + 1 <= j <= vecBindings@.len(),
                key == vecBindings@[i as int].0,
                forall|b: int|
                    i < b < j ==> vecBindings@[i as int].0 != (#[trigger] vecBindings@[b]).0,
                forall|a: int, b: int|
                    0 <= a < b < vecBindings@.len() && a < i ==> (#[trigger] vecBindings@[a]).0
                        != (#[trigger] vecBindings@[b]).0,
            decreases vecBindings@.len() - j,
        {
            if vecBindings[j].0 == key {
                proof {
                    assert((vecBindings@[i as int]).0 == (vecBindings@[j as int]).0);
                }
                return true;
            }
            j = j + 1;
        }
        i = i + 1;
    }
    false
}

/// If every binding's field index is below `n`, so is every index the
/// built table holds.
proof fn lemma_bindings_map_range(binds: Seq<(u64, usize)>, n: int)
    requires
        forall|i: int| 0 <= i < binds.len() ==> (#[trigger] binds[i]).1 < n,
    ensures
        forall|k: u64|
            bindings_map(binds).contains_key(k) ==> bindings_map(binds)[k] < n,
    decreases binds.len(),
{
    if binds.len() > 0 {
        assert forall|i: int|
            0 <= i < binds.drop_last().len() implies (#[trigger] binds.drop_last()[i]).1 < n by {
            assert(binds.drop_last()[i] == binds[i]);
        }
        lemma_bindings_map_range(binds.drop_last(), n);
        assert(binds.last() == binds[binds.len() - 1]);
        assert forall|k: u64|
            bindings_map(binds).contains_key(k) implies bindings_map(binds)[k] < n by {
            if k == binds.last().0 {
                assert(bindings_map(binds)[k] == binds.last().1);
            } else {
                assert(bindings_map(binds.drop_last()).contains_key(k));
            }
        }
    }
}

} // verus!
