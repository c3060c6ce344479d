//! The boot-time world-loading decision.
//!
//! The disk scan and the random fallback seed live outside; what to do
//! with a scan is decided and verified here: every scanned world is
//! registered in order against the known generator methods, any failure
//! stops the runtime and loads nothing further, and a first boot with no
//! worlds at all creates the default world.

use vstd::prelude::*;

use crate::clients::clone_string;
use crate::generator::WorldGeneratorSettings;
use crate::runtime::Runtime;
use crate::world::WorldsManager;

verus! {

/// One world found by the storage scan: its slug, its seed, and the
/// generator method it was created with.
pub struct ScannedWorld {
    pub slug: String,
    pub seed: u64,
    pub generator: String,
}

/// Whether a generator method is among the known ones.
pub open spec fn gen_known(gens: Seq<String>, g: Seq<char>) -> bool {
    exists|i: int| 0 <= i < gens.len() && (#[trigger] gens[i])@ == g
}

/// Whether scanned entry `k` can be loaded: its generator is known, its
/// slug is not yet registered, and no earlier scanned entry claims the
/// same slug.
pub open spec fn scan_entry_ok(
    worlds0: WorldsManager,
    list: Seq<ScannedWorld>,
    gens: Seq<String>,
    k: int,
) -> bool {
    &&& gen_known(gens, list[k].generator@)
    &&& !worlds0.spec_has_world(list[k].slug@)
    &&& forall|j: int| 0 <= j < k ==> (#[trigger] list[j]).slug@ != list[k].slug@
}

/// Whether a freshly created world matches a scanned entry.
pub open spec fn created_from(w: crate::world::WorldManager, e: ScannedWorld) -> bool {
    &&& w.slug@ == e.slug@
    &&& w.ecs.entities@.len() == 0
    &&& w.chunks_map.entries@.len() == 0
    &&& w.chunks_map.generator_settings.method@ == e.generator@
    &&& w.chunks_map.generator_settings.seed == e.seed
}

/// Whether a registry holds exactly the first `f` scanned worlds on top
/// of its old contents, with loading refused at entry `f`.
pub open spec fn partial_load_ok(
    worlds0: WorldsManager,
    worlds1: WorldsManager,
    list: Seq<ScannedWorld>,
    gens: Seq<String>,
    f: int,
) -> bool {
    &&& 0 <= f <= list.len()
    &&& !(scan_entry_ok(worlds0, list, gens, f) && f < list.len())
    &&& forall|k: int| 0 <= k < f ==> scan_entry_ok(worlds0, list, gens, k)
    &&& worlds1.worlds@.len() == worlds0.worlds@.len() + f
    &&& forall|j: int|
        0 <= j < worlds0.worlds@.len() ==> #[trigger] worlds1.worlds@[j] == worlds0.worlds@[j]
    &&& forall|k: int|
        0 <= k < f ==> created_from(
            #[trigger] worlds1.worlds@[worlds0.worlds@.len() + k],
            list[k],
        )
}

/// Whether the registry holds some refused-load prefix of the scan.
pub open spec fn some_partial_load(
    worlds0: WorldsManager,
    worlds1: WorldsManager,
    list: Seq<ScannedWorld>,
    gens: Seq<String>,
) -> bool {
    exists|f: int| #[trigger] partial_load_ok(worlds0, worlds1, list, gens, f)
}

/// Whether a list of generator methods names this one.
fn contains_generator(gens: &Vec<String>, g: &String) -> (r: bool)
    ensures
        r == gen_known(gens@, g@),
{
    let n = gens.len();
    let mut i: usize = 0;
    while i < n
        invariant
            n == gens@.len(),
            i <= n,
            forall|j: int| 0 <= j < i ==> (#[trigger] gens@[j])@ != g@,
        decreases n - i,
    {
        if crate::strutil::string_eq(&gens[i], g) {
            return true;
        }
        i = i + 1;
    }
    false
}

/// Applies a storage scan to the worlds registry. A scan error, an
/// unknown generator or a slug collision stops the runtime and creates
/// nothing further; success creates exactly one world per scanned entry,
/// in scan order; a boot that ends with no worlds at all creates the
/// default world from the given seed.
pub fn plan_world_loading(
    scan: Result<Vec<ScannedWorld>, String>,
    known_generators: Vec<String>,
    default_seed: u64,
    worlds: &mut WorldsManager,
    runtime: &mut Runtime,
) -> (r: Result<(), String>)
    requires
        old(worlds).wf(),
    ensures
        final(worlds).wf(),
        old(runtime).spec_is_stopped() ==> final(runtime).spec_is_stopped() && *final(worlds)
            == *old(worlds) && r is Ok,
        r is Err ==> final(runtime).spec_is_stopped(),
        scan matches Err(e) ==> (old(runtime).spec_is_stopped() || (r is Err && *final(worlds)
            == *old(worlds))),
        scan matches Ok(list) ==> old(runtime).spec_is_stopped() || (r is Ok <==> (forall|k: int|
            0 <= k < list@.len() ==> scan_entry_ok(
                *old(worlds),
                list@,
                known_generators@,
                k,
            )) && (old(worlds).worlds@.len() + list@.len() == 0 ==> gen_known(
            known_generators@,
            "default"@,
        ))),
        scan matches Ok(list) ==> old(runtime).spec_is_stopped() || (r is Ok ==> *final(runtime)
            == *old(runtime)),
        scan matches Ok(list) ==> old(runtime).spec_is_stopped() || {
            (r is Ok && old(worlds).worlds@.len() + list@.len() > 0 ==> {
                &&& final(worlds).worlds@.len() == old(worlds).worlds@.len() + list@.len()
                &&& (forall|j: int|
                    0 <= j < old(worlds).worlds@.len() ==> #[trigger] final(worlds).worlds@[j]
                        == old(worlds).worlds@[j])
                &&& (forall|k: int|
                    0 <= k < list@.len() ==> created_from(
                        #[trigger] final(worlds).worlds@[old(worlds).worlds@.len() + k],
                        list@[k],
                    ))
            })
        },
        scan matches Ok(list) ==> old(runtime).spec_is_stopped() || {
            (r is Ok && old(worlds).worlds@.len() + list@.len() == 0 ==> {
                &&& final(worlds).worlds@.len() == 1
                &&& final(worlds).worlds@[0].slug@ == "default"@
                &&& final(worlds).worlds@[0].chunks_map.generator_settings.method@ == "default"@
                &&& final(worlds).worlds@[0].chunks_map.generator_settings.seed == default_seed
                &&& final(worlds).worlds@[0].ecs.entities@.len() == 0
                &&& final(worlds).worlds@[0].chunks_map.entries@.len() == 0
            })
        },
        scan matches Ok(list) ==> old(runtime).spec_is_stopped() || (r is Err
            ==> some_partial_load(*old(worlds), *final(worlds), list@, known_generators@)),
{
    if runtime.is_stopped() {
        return Ok(());
    }
    let ghost scan0 = scan;
    let list = match scan {
        Ok(list) => list,
        Err(e) => {
            runtime.stop();
            return Err(e);
        },
    };
    proof {
        assert(scan0 == Ok::<Vec<ScannedWorld>, String>(list));
    }
    let n = list.len();
    let base = worlds.count();
    let mut k: usize = 0;
    while k < n
        invariant
            worlds.wf(),
            scan == Ok::<Vec<ScannedWorld>, String>(list),
            n == list@.len(),
            k <= n,
            base == old(worlds).worlds@.len(),
            !old(runtime).spec_is_stopped(),
            *runtime == *old(runtime),
            worlds.worlds@.len() == base + k,
            forall|j: int|
                0 <= j < base ==> #[trigger] worlds.worlds@[j] == old(worlds).worlds@[j],
            forall|j: int|
                0 <= j < k ==> created_from(
                    #[trigger] worlds.worlds@[base + j],
                    list@[j],
                ),
            forall|j: int|
                0 <= j < k ==> scan_entry_ok(*old(worlds), list@, known_generators@, j),
        decreases n - k,
    {
        let entry = &list[k];
        if !contains_generator(&known_generators, &entry.generator) {
            runtime.stop();
            proof {
                assert(!scan_entry_ok(*old(worlds), list@, known_generators@, k as int));
                assert(partial_load_ok(
                    *old(worlds),
                    *worlds,
                    list@,
                    known_generators@,
                    k as int,
                ));
                assert(some_partial_load(*old(worlds), *worlds, list@, known_generators@));
            }
            return Err(String::from_str("world generator not found"));
        }
        let settings = WorldGeneratorSettings::new(clone_string(&entry.generator), entry.seed);
        let ghost before = *worlds;
        let created = worlds.create_world(clone_string(&entry.slug), settings);
        match created {
            Ok(()) => {
                proof {
                    assert(!before.spec_has_world(list@[k as int].slug@));
                    assert(!old(worlds).spec_has_world(list@[k as int].slug@)) by {
                        if old(worlds).spec_has_world(list@[k as int].slug@) {
                            let j = choose|j: int|
                                0 <= j < old(worlds).worlds@.len() && (#[trigger] old(
                                    worlds,
                                ).worlds@[j]).slug@ == list@[k as int].slug@;
                            assert(before.worlds@[j].slug@ == list@[k as int].slug@);
                        }
                    };
                    assert forall|j: int|
                        0 <= j < k implies (#[trigger] list@[j]).slug@ != list@[
                        k as int
                    ].slug@ by {
                        if list@[j].slug@ == list@[k as int].slug@ {
                            assert(created_from(before.worlds@[base + j], list@[j]));
                            assert(before.spec_has_world(list@[k as int].slug@));
                        }
                    }
                    assert(scan_entry_ok(*old(worlds), list@, known_generators@, k as int));
                    assert forall|j: int|
                        0 <= j < k + 1 implies created_from(
                        #[trigger] worlds.worlds@[base + j],
                        list@[j],
                    ) by {
                        if j < k {
                            assert(worlds.worlds@[base + j] == before.worlds@[base + j]);
                        }
                    }
                }
            },
            Err(e) => {
                runtime.stop();
                proof {
                    assert(before.spec_has_world(list@[k as int].slug@));
                    let j = choose|j: int|
                        0 <= j < before.worlds@.len() && (#[trigger] before.worlds@[j]).slug@
                            == list@[k as int].slug@;
                    if j < base {
                        assert(old(worlds).worlds@[j].slug@ == list@[k as int].slug@);
                        assert(old(worlds).spec_has_world(list@[k as int].slug@));
                    } else {
                        assert(before.worlds@[base + (j - base)] == before.worlds@[j]);
                        assert(created_from(before.worlds@[j], list@[j - base]));
                        assert(list@[j - base].slug@ == list@[k as int].slug@);
                    }
                    assert(!scan_entry_ok(*old(worlds), list@, known_generators@, k as int));
                    assert(partial_load_ok(
                        *old(worlds),
                        *worlds,
                        list@,
                        known_generators@,
                        k as int,
                    ));
                    assert(some_partial_load(*old(worlds), *worlds, list@, known_generators@));
                }
                return Err(e);
            },
        }
        k = k + 1;
    }
    if worlds.count() == 0 {
        let default_slug = String::from_str("default");
        if !contains_generator(&known_generators, &default_slug) {
            runtime.stop();
            proof {
                assert(!(scan_entry_ok(*old(worlds), list@, known_generators@, 0) && 0
                    < list@.len()));
                assert(partial_load_ok(*old(worlds), *worlds, list@, known_generators@, 0));
                assert(some_partial_load(*old(worlds), *worlds, list@, known_generators@));
            }
            return Err(String::from_str("world generator not found"));
        }
        let settings = WorldGeneratorSettings::new(
            String::from_str("default"),
            default_seed,
        );
        let created = worlds.create_world(default_slug, settings);
        match created {
            Ok(()) => {},
            Err(e) => {
                proof {
                    assert(false);
                }
                runtime.stop();
                return Err(e);
            },
        }
    }
    Ok(())
}

} // verus!
