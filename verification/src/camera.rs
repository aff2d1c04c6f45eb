//! The camera's controls: the movement keys held down, and the events the camera answers
//! with.
use vstd::prelude::*;
use crate::chunk_mesh::Length3D;
use crate::world::{CardinalDir, Key, WorldEvent};

verus! {

/// A key that moves the camera: forward, left, back, right, down, up.
pub open spec fn is_movement_key(k: Key) -> bool {
    match k {
        Key::W | Key::A | Key::S | Key::D | Key::LShift | Key::Space => true,
        _ => false,
    }
}

/// The movement keys held after pressing `k`: one more entry for a movement key.
pub open spec fn after_press(keys: Seq<Key>, k: Key) -> Seq<Key> {
    if is_movement_key(k) { keys.push(k) } else { keys }
}

/// Any key but `k`.
pub open spec fn other_than(k: Key) -> spec_fn(Key) -> bool {
    |t: Key| t != k
}

/// The movement keys held after releasing `k`: every entry of a movement key dropped.
pub open spec fn after_release(keys: Seq<Key>, k: Key) -> Seq<Key> {
    if is_movement_key(k) { keys.filter(other_than(k)) } else { keys }
}

/// The movement keys held down, in the order they were pressed.
pub struct CameraControls {
    pub translations: Vec<Key>,
}

impl CameraControls {
    pub fn new() -> (r: Self)
        ensures
            r.translations@.len() == 0,
    {
        CameraControls { translations: Vec::new() }
    }

    /// Whether `k` moves the camera.
    pub fn movement_key(k: Key) -> (r: bool)
        ensures
            r == is_movement_key(k),
    {
        match k {
            Key::W | Key::A | Key::S | Key::D | Key::LShift | Key::Space => true,
            _ => false,
        }
    }

    /// Records a pressed key, if it moves the camera.
    pub fn press(&mut self, key: Key)
        ensures
            final(self).translations@ == after_press(old(self).translations@, key),
    {
        if Self::movement_key(key) {
            self.translations.push(key);
        }
    }

    /// Forgets a released key, if it moves the camera.
    pub fn release(&mut self, key: Key)
        ensures
            final(self).translations@ == after_release(old(self).translations@, key),
    {
        if Self::movement_key(key) {
            let ghost keys = self.translations@;
            let mut kept: Vec<Key> = Vec::new();
            let mut i: usize = 0;
            proof {
                reveal(Seq::filter);
                assert(keys.subrange(0, 0) =~= Seq::<Key>::empty());
            }
            while i < self.translations.len()
                invariant
                    keys == self.translations@,
                    i <= keys.len(),
                    kept@ == keys.subrange(0, i as int).filter(other_than(key)),
                decreases keys.len() - i,
            {
                let t = self.translations[i];
                proof {
                    reveal(Seq::filter);
                    assert(keys.subrange(0, i + 1).drop_last() =~= keys.subrange(0, i as int));
                }
                if t != key {
                    kept.push(t);
                }
                i = i + 1;
            }
            proof {
                assert(keys.subrange(0, keys.len() as int) =~= keys);
            }
            self.translations = kept;
        }
    }

    /// The movement-key part of the camera's answer to an event: a pressed movement key is
    /// recorded, a released one forgotten.
    pub fn respond_key(&mut self, event: &WorldEvent)
        ensures
            final(self).translations@ == match *event {
                WorldEvent::KeyPressed(k) => after_press(old(self).translations@, k),
                WorldEvent::KeyReleased(k) => after_release(old(self).translations@, k),
                _ => old(self).translations@,
            },
    {
        match event {
            WorldEvent::KeyPressed(k) => self.press(*k),
            WorldEvent::KeyReleased(k) => self.release(*k),
            _ => {},
        }
    }

    /// The events the camera answers with: the direction it faces, if that changed, then
    /// its position, while a movement key is held.
    pub fn emitted_events(&self, dir_changed: bool, direction: CardinalDir, pos: Length3D) -> (r: Vec<WorldEvent>)
        ensures
            r@ == (if dir_changed { seq![WorldEvent::UserFaceDir(direction)] } else { Seq::empty() })
                + (if self.translations@.len() > 0 { seq![WorldEvent::UserPosition(pos)] } else { Seq::empty() }),
    {
        let mut r: Vec<WorldEvent> = Vec::new();
        if dir_changed {
            r.push(WorldEvent::UserFaceDir(direction));
        }
        if self.translations.len() > 0 {
            r.push(WorldEvent::UserPosition(pos));
        }
        proof {
            assert(r@ =~= (if dir_changed { seq![WorldEvent::UserFaceDir(direction)] } else { Seq::empty() })
                + (if self.translations@.len() > 0 { seq![WorldEvent::UserPosition(pos)] } else { Seq::empty() }));
        }
        r
    }
}

/// Pressing a movement key that is not held and releasing it again leaves the held keys as
/// they were.
pub proof fn lemma_press_release(keys: Seq<Key>, k: Key)
    requires
        !keys.contains(k),
    ensures
        after_release(after_press(keys, k), k) == keys,
{
    if is_movement_key(k) {
        lemma_filter_without(keys, k);
        reveal(Seq::filter);
        assert(keys.push(k).drop_last() =~= keys);
        assert(!other_than(k)(keys.push(k).last()));
    }
}

/// After releasing a movement key, it is no longer held.
pub proof fn lemma_release_drops(keys: Seq<Key>, k: Key)
    requires
        is_movement_key(k),
    ensures
        !after_release(keys, k).contains(k),
{
    let f = keys.filter(other_than(k));
    if f.contains(k) {
        let i = choose|i: int| 0 <= i < f.len() && f[i] == k;
        keys.lemma_filter_pred(other_than(k), i);
    }
}

proof fn lemma_filter_without(keys: Seq<Key>, k: Key)
    requires
        !keys.contains(k),
    ensures
        keys.filter(other_than(k)) == keys,
    decreases keys.len(),
{
    reveal(Seq::filter);
    if keys.len() > 0 {
        assert(!keys.drop_last().contains(k)) by {
            if keys.drop_last().contains(k) {
                let i = choose|i: int| 0 <= i < keys.drop_last().len() && keys.drop_last()[i] == k;
                assert(keys[i] == k);
            }
        }
        lemma_filter_without(keys.drop_last(), k);
        assert(keys.last() != k) by {
            assert(keys[keys.len() - 1] == keys.last());
        }
        assert(keys.drop_last().push(keys.last()) =~= keys);
    }
}

} // verus!
