//! The collector of samples.

use crate::config::Config;
use crate::docker::{Container, DataUsage, DockerError, DockerResult, Image, Volume};
use crate::string_map::{
    added, distinct_keys, dropped, has_key, key_at, keys, lemma_added, lemma_added_front,
    lemma_retained, lemma_value_at, lemma_value_in_front, lemma_viewed, lemma_viewed_filter,
    retained, value_under, values, viewed, StringMap,
};
use crate::text::same_text;
use laws::published::changes_of;
use laws::update::{settles, updates_settle};
use samples::{changes, texts, Change, GaugeChange};
use trackers::{
    display_name, is_nameable, nameable, tracked_image, tracked_volume, ContainerTracker,
    ImageTracker, TrackedContainer, TrackedImage, TrackedVolume, VolumeTracker,
};
use vstd::prelude::*;

pub mod laws;
pub mod metrics;
pub mod samples;
pub mod trackers;

verus! {

/// Whether `key` stands in `keys`.
fn is_listed(keys: &Vec<String>, key: &str) -> (r: bool)
    ensures
        r == texts(keys@).contains(key@),
{
    let n: usize = keys.len();
    let mut i: usize = 0;
    while i < n
        invariant
            i <= n == keys@.len(),
            forall|j: int| 0 <= j < i ==> texts(keys@)[j] != key@,
        decreases n - i,
    {
        if same_text(keys[i].as_str(), key) {
            assert(texts(keys@)[i as int] == key@);
            return true;
        }
        i = i + 1;
    }
    false
}

/// Keeps the trackers whose key is active, and hands out the others.
pub fn retain_active<V>(trackers: &mut StringMap<V>, active_keys: &Vec<String>) -> (r: Vec<V>)
    ensures
        final(trackers)@ == retained(old(trackers)@, texts(active_keys@)),
        r@ == values(dropped(old(trackers)@, texts(active_keys@))),
{
    let ghost all = trackers@;
    let ghost active = texts(active_keys@);
    let mut before: StringMap<V> = StringMap::new();
    std::mem::swap(&mut before, trackers);
    let entries = before.into_entries();
    let mut gone: Vec<V> = Vec::new();
    for entry in it: entries
        invariant
            it.seq() == entries@,
            entries@.len() == all.len(),
            forall|i: int|
                0 <= i < all.len() ==> (#[trigger] entries@[i]).0@ == all[i].0 && entries@[i].1
                    == all[i].1,
            distinct_keys(all),
            active == texts(active_keys@),
            trackers@ == retained(all.take(it.index() as int), active),
            gone@ == values(dropped(all.take(it.index() as int), active)),
    {
        let (key, value) = entry;
        let ghost i = it.index() as int;
        let ghost front = all.take(i);
        proof {
            assert(all[i] == (key@, value));
            assert(all.take(i + 1) =~= front.push((key@, value)));
            front.lemma_filter_push(
                (key@, value),
                |e: (Seq<char>, V)| active.contains(e.0),
            );
            front.lemma_filter_push(
                (key@, value),
                |e: (Seq<char>, V)| !active.contains(e.0),
            );
            assert(distinct_keys(front));
            lemma_retained(front, active);
            assert(!has_key(front, key@)) by {
                if has_key(front, key@) {
                    let j = choose|j: int| key_at(front, key@, j);
                    assert(all[j].0 != all[i].0);
                }
            }
        }
        if is_listed(active_keys, key.as_str()) {
            trackers.insert(key, value);
        } else {
            gone.push(value);
            assert(gone@ =~= values(dropped(all.take(i + 1), active)));
        }
    }
    assert(all.take(all.len() as int) =~= all);
    gone
}

/// What is tracked, under the keys by which the daemon tells it apart.
pub ghost struct Inventory {
    pub containers: Seq<(Seq<char>, TrackedContainer)>,
    pub volumes: Seq<(Seq<char>, TrackedVolume)>,
    pub images: Seq<(Seq<char>, TrackedImage)>,
}

impl Inventory {
    /// Nothing is tracked twice, and each tracker stands under its own key.
    pub open spec fn valid(self) -> bool {
        &&& distinct_keys(self.containers)
        &&& distinct_keys(self.volumes)
        &&& distinct_keys(self.images)
        &&& forall|i: int|
            0 <= i < self.containers.len() ==> (#[trigger] self.containers[i]).1.id
                == self.containers[i].0
        &&& forall|i: int|
            0 <= i < self.volumes.len() ==> (#[trigger] self.volumes[i]).1.name
                == self.volumes[i].0
        &&& forall|i: int|
            0 <= i < self.images.len() ==> (#[trigger] self.images[i]).1.id == self.images[i].0
    }
}

/// The trackers of all that is there.
pub struct Collector {
    container_trackers: StringMap<ContainerTracker>,
    volume_trackers: StringMap<VolumeTracker>,
    image_trackers: StringMap<ImageTracker>,
}

impl View for Collector {
    type V = Inventory;

    closed spec fn view(&self) -> Inventory {
        Inventory {
            containers: viewed(self.container_trackers@),
            volumes: viewed(self.volume_trackers@),
            images: viewed(self.image_trackers@),
        }
    }
}

/// What there is to track of listed containers.
pub open spec fn listed_containers(containers: Seq<Container>) -> Seq<
    (Seq<char>, TrackedContainer),
> {
    containers.map_values(
        |c: Container| (c.id@, TrackedContainer { id: c.id@, name: display_name(c) }),
    )
}

/// What there is to track of listed volumes.
pub open spec fn listed_volumes(volumes: Seq<Volume>) -> Seq<(Seq<char>, TrackedVolume)> {
    volumes.map_values(|v: Volume| (v.name@, tracked_volume(v)))
}

/// What there is to track of listed images.
pub open spec fn listed_images(images: Seq<Image>) -> Seq<(Seq<char>, TrackedImage)> {
    images.map_values(|i: Image| (i.id@, tracked_image(i)))
}

/// What is tracked after a listing: what was tracked already and is listed still, as it was,
/// and what is listed for the first time.
pub open spec fn synced<T>(s: Seq<(Seq<char>, T)>, listed: Seq<(Seq<char>, T)>) -> Seq<
    (Seq<char>, T),
> {
    added(retained(s, keys(listed)), listed)
}

/// What is tracked no more after a listing.
pub open spec fn outdated<T>(s: Seq<(Seq<char>, T)>, listed: Seq<(Seq<char>, T)>) -> Seq<T> {
    values(dropped(s, keys(listed)))
}

/// The changes by which the samples of containers go.
pub open spec fn container_withdrawals(s: Seq<TrackedContainer>) -> Seq<Change> {
    s.map_values(|t: TrackedContainer| t.withdrawal()).flatten()
}

/// The changes by which the samples of volumes go.
pub open spec fn volume_withdrawals(s: Seq<TrackedVolume>) -> Seq<Change> {
    s.map_values(|t: TrackedVolume| t.withdrawal()).flatten()
}

/// The changes by which the samples of images go.
pub open spec fn image_withdrawals(s: Seq<TrackedImage>) -> Seq<Change> {
    s.map_values(|t: TrackedImage| t.withdrawal()).flatten()
}

/// The changes that the use of listed volumes leads to, each under the labels that its volume
/// is tracked with.
pub open spec fn volume_listing_changes(
    known: Seq<(Seq<char>, TrackedVolume)>,
    volumes: Seq<Volume>,
) -> Seq<Change> {
    volumes.map_values(
        |v: Volume| value_under(known, v.name@).usage_changes(v.usage_data),
    ).flatten()
}

/// The changes that listed images lead to, each under the labels that its image is tracked
/// with.
pub open spec fn image_listing_changes(
    known: Seq<(Seq<char>, TrackedImage)>,
    images: Seq<Image>,
) -> Seq<Change> {
    images.map_values(
        |i: Image| value_under(known, i.id@).listing_changes(i.containers, i.size),
    ).flatten()
}

/// The container at `i` is not tracked yet, and not listed before.
pub open spec fn first_listing(
    known: Seq<(Seq<char>, TrackedContainer)>,
    containers: Seq<Container>,
    i: int,
) -> bool {
    &&& !has_key(known, containers[i].id@)
    &&& forall|j: int| 0 <= j < i ==> (#[trigger] containers[j]).id@ != containers[i].id@
}

/// There is a name for every container that comes to be tracked.
pub open spec fn trackable(
    known: Seq<(Seq<char>, TrackedContainer)>,
    containers: Seq<Container>,
) -> bool {
    forall|i: int|
        0 <= i < containers.len() && first_listing(known, containers, i) ==> nameable(
            #[trigger] containers[i],
        )
}

impl Collector {
    #[verifier::type_invariant]
    closed spec fn inv(self) -> bool {
        self@.valid()
    }

    /// A collector that tracks nothing yet.
    pub fn new() -> (r: Self)
        ensures
            r@.containers.len() == 0,
            r@.volumes.len() == 0,
            r@.images.len() == 0,
            r@.valid(),
    {
        Collector {
            container_trackers: StringMap::new(),
            volume_trackers: StringMap::new(),
            image_trackers: StringMap::new(),
        }
    }

    /// Tracks the listed containers and no others, and gives the changes that this leads to:
    /// the samples of those that are listed no more go. Samples of the others come with their
    /// own updates.
    pub fn sync_container_trackers(&mut self, containers: Vec<Container>) -> (r: Vec<GaugeChange>)
        requires
            trackable(old(self)@.containers, containers@),
        ensures
            final(self)@.valid(),
            final(self)@.volumes == old(self)@.volumes,
            final(self)@.images == old(self)@.images,
            final(self)@.containers == synced(
                old(self)@.containers,
                listed_containers(containers@),
            ),
            changes(r@) == container_withdrawals(
                outdated(old(self)@.containers, listed_containers(containers@)),
            ),
    {
        proof {
            use_type_invariant(&*self);
        }
        let ghost before = self@;
        let ghost cs = containers@;
        let ghost listed = listed_containers(cs);
        let ghost kept = retained(before.containers, keys(listed));
        let ghost after = synced(before.containers, listed);
        let mut trackers: StringMap<ContainerTracker> = StringMap::new();
        std::mem::swap(&mut trackers, &mut self.container_trackers);
        let ghost had = trackers@;
        let ids = container_ids(&containers);
        let gone = retain_active(&mut trackers, &ids);
        proof {
            lemma_viewed_filter(had, keys(listed));
            lemma_retained(before.containers, keys(listed));
            lemma_added(kept, listed);
            assert(gone@.map_values(|t: ContainerTracker| t@) =~= outdated(
                before.containers,
                listed,
            )) by {
                assert(viewed(dropped(had, keys(listed))) == dropped(
                    before.containers,
                    keys(listed),
                ));
                assert forall|j: int| 0 <= j < gone@.len() implies (#[trigger] gone@[j])@
                    == outdated(before.containers, listed)[j] by {
                    assert(viewed(dropped(had, keys(listed)))[j].1 == gone@[j]@);
                }
            }
        }
        let r = withdraw_containers(gone);
        assert(listed.take(0) =~= Seq::empty());
        for container in it: containers
            invariant
                it.seq() == cs,
                listed == listed_containers(cs),
                kept == retained(before.containers, keys(listed)),
                distinct_keys(before.containers),
                distinct_keys(kept),
                after == added(kept, listed),
                distinct_keys(after),
                trackable(before.containers, cs),
                viewed(trackers@) == added(kept, listed.take(it.index() as int)),
        {
            let ghost i = it.index() as int;
            let ghost had = trackers@;
            let id = container.id.clone();
            proof {
                assert(listed[i] == (
                    id@,
                    TrackedContainer { id: id@, name: display_name(container) },
                ));
                lemma_sync_step(kept, listed, i);
                lemma_viewed(had, id@);
            }
            if !trackers.contains_key(id.as_str()) {
                proof {
                    lemma_first_listing(before.containers, cs, i);
                }
                let tracker = ContainerTracker::new(container);
                trackers.insert(id, tracker);
                assert(viewed(trackers@) =~= viewed(had).push((id@, tracker@)));
            }
        }
        assert(listed.take(cs.len() as int) =~= listed);
        proof {
            lemma_synced_all(
                before.containers,
                listed,
                |e: (Seq<char>, TrackedContainer)| e.1.id == e.0,
            );
        }
        self.container_trackers = trackers;
        r
    }

    /// Tracks the listed volumes and no others, and gives the changes that this leads to.
    pub fn sync_volume_trackers(&mut self, volumes: Vec<Volume>) -> (r: Vec<GaugeChange>)
        ensures
            final(self)@.valid(),
            final(self)@.containers == old(self)@.containers,
            final(self)@.images == old(self)@.images,
            final(self)@.volumes == synced(old(self)@.volumes, listed_volumes(volumes@)),
            changes(r@) == volume_withdrawals(
                outdated(old(self)@.volumes, listed_volumes(volumes@)),
            ) + volume_listing_changes(final(self)@.volumes, volumes@),
    {
        proof {
            use_type_invariant(&*self);
        }
        let ghost before = self@;
        let ghost vs = volumes@;
        let ghost listed = listed_volumes(vs);
        let ghost kept = retained(before.volumes, keys(listed));
        let ghost after = synced(before.volumes, listed);
        let mut trackers: StringMap<VolumeTracker> = StringMap::new();
        std::mem::swap(&mut trackers, &mut self.volume_trackers);
        let ghost had = trackers@;
        let names = volume_names(&volumes);
        let gone = retain_active(&mut trackers, &names);
        proof {
            lemma_viewed_filter(had, keys(listed));
            lemma_retained(before.volumes, keys(listed));
            lemma_added(kept, listed);
            assert(gone@.map_values(|t: VolumeTracker| t@) =~= outdated(before.volumes, listed)) by {
                assert(viewed(dropped(had, keys(listed))) == dropped(before.volumes, keys(listed)));
                assert forall|j: int| 0 <= j < gone@.len() implies (#[trigger] gone@[j])@
                    == outdated(before.volumes, listed)[j] by {
                    assert(viewed(dropped(had, keys(listed)))[j].1 == gone@[j]@);
                }
            }
        }
        let mut r = withdraw_volumes(gone);
        let ghost first = changes(r@);
        assert(listed.take(0) =~= Seq::empty());
        assert(volume_listing_changes(after, vs.take(0)) =~= Seq::empty());
        for volume in it: volumes
            invariant
                it.seq() == vs,
                listed == listed_volumes(vs),
                distinct_keys(kept),
                after == added(kept, listed),
                distinct_keys(after),
                viewed(trackers@) == added(kept, listed.take(it.index() as int)),
                changes(r@) == first + volume_listing_changes(after, vs.take(it.index() as int)),
        {
            let ghost i = it.index() as int;
            let ghost had = trackers@;
            let name = volume.name.clone();
            proof {
                use_type_invariant(&trackers);
                assert(listed[i] == (name@, tracked_volume(volume)));
                lemma_sync_step(kept, listed, i);
                lemma_viewed(had, name@);
                lemma_volume_listing_step(after, vs, i);
            }
            let mut list = match trackers.get(name.as_str()) {
                Some(tracker) => tracker.update(&volume),
                None => {
                    let (tracker, list) = VolumeTracker::new(volume);
                    trackers.insert(name, tracker);
                    assert(viewed(trackers@) =~= viewed(had).push((name@, tracker@)));
                    list
                },
            };
            let ghost more = changes(list@);
            let ghost so_far = changes(r@);
            r.append(&mut list);
            assert(changes(r@) =~= so_far + more);
        }
        assert(vs.take(vs.len() as int) =~= vs);
        assert(listed.take(vs.len() as int) =~= listed);
        proof {
            lemma_synced_all(
                before.volumes,
                listed,
                |e: (Seq<char>, TrackedVolume)| e.1.name == e.0,
            );
        }
        self.volume_trackers = trackers;
        r
    }

    /// Tracks the listed images and no others, and gives the changes that this leads to.
    pub fn sync_image_trackers(&mut self, images: Vec<Image>) -> (r: Vec<GaugeChange>)
        ensures
            final(self)@.valid(),
            final(self)@.containers == old(self)@.containers,
            final(self)@.volumes == old(self)@.volumes,
            final(self)@.images == synced(old(self)@.images, listed_images(images@)),
            changes(r@) == image_withdrawals(
                outdated(old(self)@.images, listed_images(images@)),
            ) + image_listing_changes(final(self)@.images, images@),
    {
        proof {
            use_type_invariant(&*self);
        }
        let ghost before = self@;
        let ghost vs = images@;
        let ghost listed = listed_images(vs);
        let ghost kept = retained(before.images, keys(listed));
        let ghost after = synced(before.images, listed);
        let mut trackers: StringMap<ImageTracker> = StringMap::new();
        std::mem::swap(&mut trackers, &mut self.image_trackers);
        let ghost had = trackers@;
        let ids = image_ids(&images);
        let gone = retain_active(&mut trackers, &ids);
        proof {
            lemma_viewed_filter(had, keys(listed));
            lemma_retained(before.images, keys(listed));
            lemma_added(kept, listed);
            assert(gone@.map_values(|t: ImageTracker| t@) =~= outdated(before.images, listed)) by {
                assert(viewed(dropped(had, keys(listed))) == dropped(before.images, keys(listed)));
                assert forall|j: int| 0 <= j < gone@.len() implies (#[trigger] gone@[j])@
                    == outdated(before.images, listed)[j] by {
                    assert(viewed(dropped(had, keys(listed)))[j].1 == gone@[j]@);
                }
            }
        }
        let mut r = withdraw_images(gone);
        let ghost first = changes(r@);
        assert(listed.take(0) =~= Seq::empty());
        assert(image_listing_changes(after, vs.take(0)) =~= Seq::empty());
        for image in it: images
            invariant
                it.seq() == vs,
                listed == listed_images(vs),
                distinct_keys(kept),
                after == added(kept, listed),
                distinct_keys(after),
                viewed(trackers@) == added(kept, listed.take(it.index() as int)),
                changes(r@) == first + image_listing_changes(after, vs.take(it.index() as int)),
        {
            let ghost i = it.index() as int;
            let ghost had = trackers@;
            let id = image.id.clone();
            proof {
                use_type_invariant(&trackers);
                assert(listed[i] == (id@, tracked_image(image)));
                lemma_sync_step(kept, listed, i);
                lemma_viewed(had, id@);
                lemma_image_listing_step(after, vs, i);
            }
            let mut list = match trackers.get(id.as_str()) {
                Some(tracker) => tracker.update(&image),
                None => {
                    let (tracker, list) = ImageTracker::new(image);
                    trackers.insert(id, tracker);
                    assert(viewed(trackers@) =~= viewed(had).push((id@, tracker@)));
                    list
                },
            };
            let ghost more = changes(list@);
            let ghost so_far = changes(r@);
            r.append(&mut list);
            assert(changes(r@) =~= so_far + more);
        }
        assert(vs.take(vs.len() as int) =~= vs);
        assert(listed.take(vs.len() as int) =~= listed);
        proof {
            lemma_synced_all(
                before.images,
                listed,
                |e: (Seq<char>, TrackedImage)| e.1.id == e.0,
            );
        }
        self.image_trackers = trackers;
        r
    }
}

/// A query for what there is.
#[derive(Clone, Copy, Debug, PartialEq, Eq, Structural)]
pub enum DataQuery {
    /// The containers alone.
    Containers,
    /// Everything on disk.
    DataUsage,
}

/// The answer to a query for what there is.
pub enum DataReply {
    /// The containers alone.
    Containers(Vec<Container>),
    /// Everything on disk.
    DataUsage(DataUsage),
}

/// What there is, as far as it was asked for.
pub struct CollectedData {
    pub containers: Vec<Container>,
    pub volumes: Vec<Volume>,
    pub images: Vec<Image>,
}

/// What happens while the samples are updated.
pub enum UpdateEvent {
    /// The update begins.
    Begin,
    /// The query for what there is has ended.
    Data(DockerResult<DataReply>),
    /// The updates of all tracked containers have ended. With their results comes what was
    /// listed besides the containers.
    ContainersUpdated {
        results: Vec<DockerResult<()>>,
        volumes: Vec<Volume>,
        images: Vec<Image>,
    },
}

/// What an update of the samples goes on with.
pub enum UpdateAction {
    /// Send a query.
    Query(DataQuery),
    /// Make changes, and then update each tracked container.
    UpdateContainers { changes: Vec<GaugeChange>, volumes: Vec<Volume>, images: Vec<Image> },
    /// Make changes, and count the failures; the update has ended.
    Finish { updated: bool, failures: Vec<DockerError>, changes: Vec<GaugeChange> },
}

/// The query that settings call for: containers alone do where nothing else is collected.
pub open spec fn query_for(config: Config) -> DataQuery {
    if config.collect_image_metrics || config.collect_volume_metrics {
        DataQuery::DataUsage
    } else {
        DataQuery::Containers
    }
}

/// The failures among results, in order.
pub open spec fn failures_among(results: Seq<DockerResult<()>>) -> Seq<DockerError>
    decreases results.len(),
{
    if results.len() == 0 {
        Seq::empty()
    } else {
        match results.last() {
            Ok(_) => failures_among(results.drop_last()),
            Err(error) => failures_among(results.drop_last()).push(error),
        }
    }
}

/// What an answer holds: where containers were listed alone, there are no volumes and no
/// images.
pub open spec fn holds(reply: DataReply, data: CollectedData) -> bool {
    match reply {
        DataReply::Containers(containers) => {
            &&& data.containers == containers
            &&& data.volumes@ == Seq::<Volume>::empty()
            &&& data.images@ == Seq::<Image>::empty()
        },
        DataReply::DataUsage(usage) => {
            &&& data.containers == usage.containers
            &&& data.volumes == usage.volumes
            &&& data.images == usage.images
        },
    }
}

/// The containers that an answer lists.
pub open spec fn containers_in(reply: DataReply) -> Seq<Container> {
    match reply {
        DataReply::Containers(containers) => containers@,
        DataReply::DataUsage(usage) => usage.containers@,
    }
}

/// The volumes that an answer lists.
pub open spec fn volumes_in(reply: DataReply) -> Seq<Volume> {
    match reply {
        DataReply::Containers(_) => Seq::empty(),
        DataReply::DataUsage(usage) => usage.volumes@,
    }
}

/// The images that an answer lists.
pub open spec fn images_in(reply: DataReply) -> Seq<Image> {
    match reply {
        DataReply::Containers(_) => Seq::empty(),
        DataReply::DataUsage(usage) => usage.images@,
    }
}

/// The changes that a listing of volumes leads to.
pub open spec fn volume_changes(
    known: Seq<(Seq<char>, TrackedVolume)>,
    volumes: Seq<Volume>,
) -> Seq<Change> {
    volume_withdrawals(outdated(known, listed_volumes(volumes))) + volume_listing_changes(
        synced(known, listed_volumes(volumes)),
        volumes,
    )
}

/// The changes that a listing of images leads to.
pub open spec fn image_changes(
    known: Seq<(Seq<char>, TrackedImage)>,
    images: Seq<Image>,
) -> Seq<Change> {
    image_withdrawals(outdated(known, listed_images(images))) + image_listing_changes(
        synced(known, listed_images(images)),
        images,
    )
}

/// A step of an update.
///
/// First comes the query for what there is. If it fails, nothing changes, one failure counts
/// and the update has failed. Else the containers that it lists are tracked, and each of them
/// is updated. Then the volumes and the images that it lists are tracked, as far as they are
/// collected; each container whose update failed counts as a failure, and the update has
/// succeeded.
pub open spec fn update_step(
    config: Config,
    before: Inventory,
    event: UpdateEvent,
    after: Inventory,
    action: UpdateAction,
) -> bool {
    match event {
        UpdateEvent::Begin => {
            &&& after == before
            &&& action matches UpdateAction::Query(query)
            &&& query == query_for(config)
        },
        UpdateEvent::Data(Err(error)) => {
            &&& after == before
            &&& action matches UpdateAction::Finish { updated, failures, changes: list }
            &&& !updated
            &&& failures@ == seq![error]
            &&& changes(list@) == Seq::<Change>::empty()
        },
        UpdateEvent::Data(Ok(reply)) => {
            let listed = listed_containers(containers_in(reply));
            &&& after == (Inventory { containers: synced(before.containers, listed), ..before })
            &&& action matches UpdateAction::UpdateContainers { changes: list, volumes, images }
            &&& changes(list@) == container_withdrawals(outdated(before.containers, listed))
            &&& volumes@ == volumes_in(reply)
            &&& images@ == images_in(reply)
        },
        UpdateEvent::ContainersUpdated { results, volumes, images } => {
            &&& after == (Inventory {
                containers: before.containers,
                volumes: if config.collect_volume_metrics {
                    synced(before.volumes, listed_volumes(volumes@))
                } else {
                    before.volumes
                },
                images: if config.collect_image_metrics {
                    synced(before.images, listed_images(images@))
                } else {
                    before.images
                },
            })
            &&& action matches UpdateAction::Finish { updated, failures, changes: list }
            &&& updated
            &&& failures@ == failures_among(results@)
            &&& changes(list@) == (if config.collect_volume_metrics {
                volume_changes(before.volumes, volumes@)
            } else {
                Seq::empty()
            }) + (if config.collect_image_metrics {
                image_changes(before.images, images@)
            } else {
                Seq::empty()
            })
        },
    }
}

impl Collector {
    /// The trackers of containers.
    pub fn container_trackers(&self) -> (r: &StringMap<ContainerTracker>)
        ensures
            viewed(r@) == self@.containers,
            self@.valid(),
    {
        proof {
            use_type_invariant(self);
        }
        &self.container_trackers
    }

    /// Whether there is a name for every container that comes to be tracked.
    pub fn can_track(&self, containers: &Vec<Container>) -> (r: bool)
        ensures
            r == trackable(self@.containers, containers@),
    {
        proof {
            use_type_invariant(self);
        }
        let n: usize = containers.len();
        let mut i: usize = 0;
        while i < n
            invariant
                i <= n == containers@.len(),
                distinct_keys(self@.containers),
                forall|k: int|
                    0 <= k < i && first_listing(self@.containers, containers@, k) ==> nameable(
                        #[trigger] containers@[k],
                    ),
            decreases n - i,
        {
            if !is_nameable(&containers[i]) && self.is_first_listing(containers, i) {
                return false;
            }
            i = i + 1;
        }
        true
    }

    fn is_first_listing(&self, containers: &Vec<Container>, i: usize) -> (r: bool)
        requires
            i < containers@.len(),
        ensures
            r == first_listing(self@.containers, containers@, i as int),
    {
        proof {
            lemma_viewed(self.container_trackers@, containers@[i as int].id@);
        }
        if self.container_trackers.contains_key(containers[i].id.as_str()) {
            return false;
        }
        let mut j: usize = 0;
        while j < i
            invariant
                j <= i < containers@.len(),
                forall|k: int| 0 <= k < j ==> (#[trigger] containers@[k]).id@
                    != containers@[i as int].id@,
            decreases i - j,
        {
            if same_text(containers[j].id.as_str(), containers[i].id.as_str()) {
                return false;
            }
            j = j + 1;
        }
        true
    }

    /// The query for what there is.
    pub fn query(config: &Config) -> (r: DataQuery)
        ensures
            r == query_for(*config),
    {
        if config.collect_image_metrics || config.collect_volume_metrics {
            DataQuery::DataUsage
        } else {
            DataQuery::Containers
        }
    }

    /// What the answer to the query holds.
    pub fn collect_data(reply: DataReply) -> (r: CollectedData)
        ensures
            holds(reply, r),
    {
        match reply {
            DataReply::DataUsage(usage) => CollectedData {
                containers: usage.containers,
                volumes: usage.volumes,
                images: usage.images,
            },
            DataReply::Containers(containers) => CollectedData {
                containers,
                volumes: Vec::new(),
                images: Vec::new(),
            },
        }
    }

    /// The next step of an update of the samples.
    pub fn update(&mut self, config: &Config, event: UpdateEvent) -> (r: UpdateAction)
        requires
            event matches UpdateEvent::Data(Ok(reply)) ==> trackable(
                old(self)@.containers,
                containers_in(reply),
            ),
        ensures
            final(self)@.valid(),
            update_step(*config, old(self)@, event, final(self)@, r),
            event matches UpdateEvent::ContainersUpdated { results, volumes, images } ==> settles(
                *config,
                old(self)@,
                volumes@,
                images@,
                final(self)@,
                changes_of(r),
            ),
    {
        proof {
            use_type_invariant(&*self);
        }
        match event {
            UpdateEvent::Begin => UpdateAction::Query(Self::query(config)),
            UpdateEvent::Data(Err(error)) => {
                let none: Vec<GaugeChange> = Vec::new();
                assert(changes(none@) =~= Seq::<Change>::empty());
                let failures: Vec<DockerError> = vec![error];
                assert(failures@ =~= seq![error]);
                UpdateAction::Finish { updated: false, failures, changes: none }
            },
            UpdateEvent::Data(Ok(reply)) => {
                let data = Self::collect_data(reply);
                let list = self.sync_container_trackers(data.containers);
                UpdateAction::UpdateContainers {
                    changes: list,
                    volumes: data.volumes,
                    images: data.images,
                }
            },
            UpdateEvent::ContainersUpdated { results, volumes, images } => {
                let ghost before = self@;
                let ghost answers = (results, volumes, images);
                let failures = collect_failures(results);
                let mut list: Vec<GaugeChange> = Vec::new();
                assert(changes(list@) =~= Seq::<Change>::empty());
                if config.collect_volume_metrics {
                    list = self.sync_volume_trackers(volumes);
                }
                let ghost first = changes(list@);
                let mut more: Vec<GaugeChange> = Vec::new();
                assert(changes(more@) =~= Seq::<Change>::empty());
                if config.collect_image_metrics {
                    more = self.sync_image_trackers(images);
                }
                let ghost second = changes(more@);
                list.append(&mut more);
                assert(changes(list@) =~= first + second);
                let end = UpdateAction::Finish { updated: true, failures, changes: list };
                proof {
                    let (results, volumes, images) = answers;
                    updates_settle(*config, before, results, volumes, images, self@, end);
                }
                end
            },
        }
    }
}

/// The failures among results, in order.
fn collect_failures(results: Vec<DockerResult<()>>) -> (r: Vec<DockerError>)
    ensures
        r@ == failures_among(results@),
{
    let ghost all = results@;
    let mut r: Vec<DockerError> = Vec::new();
    assert(failures_among(all.take(0)) =~= Seq::empty());
    for result in it: results
        invariant
            it.seq() == all,
            r@ == failures_among(all.take(it.index() as int)),
    {
        let ghost i = it.index() as int;
        assert(all.take(i + 1).drop_last() =~= all.take(i));
        if let Err(error) = result {
            r.push(error);
        }
    }
    assert(all.take(all.len() as int) =~= all);
    r
}

/// The names of volumes.
fn volume_names(volumes: &Vec<Volume>) -> (r: Vec<String>)
    ensures
        texts(r@) == keys(listed_volumes(volumes@)),
{
    let mut names: Vec<String> = Vec::new();
    let n: usize = volumes.len();
    let mut i: usize = 0;
    let ghost all = keys(listed_volumes(volumes@));
    assert(texts(names@) =~= all.take(0));
    while i < n
        invariant
            i <= n == volumes@.len(),
            all == keys(listed_volumes(volumes@)),
            texts(names@) == all.take(i as int),
        decreases n - i,
    {
        let ghost so_far = texts(names@);
        names.push(volumes[i].name.clone());
        assert(texts(names@) =~= so_far.push(volumes@[i as int].name@));
        assert(all.take(i + 1) =~= all.take(i as int).push(all[i as int]));
        i = i + 1;
    }
    assert(all.take(n as int) =~= all);
    names
}

/// The changes by which the samples of volumes go.
fn withdraw_volumes(gone: Vec<VolumeTracker>) -> (r: Vec<GaugeChange>)
    ensures
        changes(r@) == volume_withdrawals(gone@.map_values(|t: VolumeTracker| t@)),
{
    let ghost all = gone@.map_values(|t: VolumeTracker| t@);
    let mut r: Vec<GaugeChange> = Vec::new();
    assert(changes(r@) =~= Seq::empty());
    assert(volume_withdrawals(all.take(0)) =~= Seq::empty());
    for tracker in it: gone
        invariant
            it.seq() == gone@,
            all == gone@.map_values(|t: VolumeTracker| t@),
            changes(r@) == volume_withdrawals(all.take(it.index() as int)),
    {
        let ghost i = it.index() as int;
        let ghost so_far = changes(r@);
        let ghost last = tracker@;
        let mut list = tracker.withdraw();
        r.append(&mut list);
        proof {
            let front = all.take(i).map_values(|t: TrackedVolume| t.withdrawal());
            assert(all.take(i + 1) =~= all.take(i).push(last));
            assert(all.take(i + 1).map_values(|t: TrackedVolume| t.withdrawal()) =~= front.push(
                last.withdrawal(),
            ));
            front.lemma_flatten_push(last.withdrawal());
            assert(changes(r@) =~= so_far + last.withdrawal());
        }
    }
    assert(all.take(all.len() as int) =~= all);
    r
}

/// The identifiers of images.
fn image_ids(images: &Vec<Image>) -> (r: Vec<String>)
    ensures
        texts(r@) == keys(listed_images(images@)),
{
    let mut ids: Vec<String> = Vec::new();
    let n: usize = images.len();
    let mut i: usize = 0;
    let ghost all = keys(listed_images(images@));
    assert(texts(ids@) =~= all.take(0));
    while i < n
        invariant
            i <= n == images@.len(),
            all == keys(listed_images(images@)),
            texts(ids@) == all.take(i as int),
        decreases n - i,
    {
        let ghost so_far = texts(ids@);
        ids.push(images[i].id.clone());
        assert(texts(ids@) =~= so_far.push(images@[i as int].id@));
        assert(all.take(i + 1) =~= all.take(i as int).push(all[i as int]));
        i = i + 1;
    }
    assert(all.take(n as int) =~= all);
    ids
}

/// The changes by which the samples of images go.
fn withdraw_images(gone: Vec<ImageTracker>) -> (r: Vec<GaugeChange>)
    ensures
        changes(r@) == image_withdrawals(gone@.map_values(|t: ImageTracker| t@)),
{
    let ghost all = gone@.map_values(|t: ImageTracker| t@);
    let mut r: Vec<GaugeChange> = Vec::new();
    assert(changes(r@) =~= Seq::empty());
    assert(image_withdrawals(all.take(0)) =~= Seq::empty());
    for tracker in it: gone
        invariant
            it.seq() == gone@,
            all == gone@.map_values(|t: ImageTracker| t@),
            changes(r@) == image_withdrawals(all.take(it.index() as int)),
    {
        let ghost i = it.index() as int;
        let ghost so_far = changes(r@);
        let ghost last = tracker@;
        let mut list = tracker.withdraw();
        r.append(&mut list);
        proof {
            let front = all.take(i).map_values(|t: TrackedImage| t.withdrawal());
            assert(all.take(i + 1) =~= all.take(i).push(last));
            assert(all.take(i + 1).map_values(|t: TrackedImage| t.withdrawal()) =~= front.push(
                last.withdrawal(),
            ));
            front.lemma_flatten_push(last.withdrawal());
            assert(changes(r@) =~= so_far + last.withdrawal());
        }
    }
    assert(all.take(all.len() as int) =~= all);
    r
}

/// The identifiers of containers.
fn container_ids(containers: &Vec<Container>) -> (r: Vec<String>)
    ensures
        texts(r@) == keys(listed_containers(containers@)),
{
    let mut ids: Vec<String> = Vec::new();
    let n: usize = containers.len();
    let mut i: usize = 0;
    let ghost all = keys(listed_containers(containers@));
    assert(texts(ids@) =~= all.take(0));
    while i < n
        invariant
            i <= n == containers@.len(),
            all == keys(listed_containers(containers@)),
            texts(ids@) == all.take(i as int),
        decreases n - i,
    {
        let ghost so_far = texts(ids@);
        ids.push(containers[i].id.clone());
        assert(texts(ids@) =~= so_far.push(containers@[i as int].id@));
        assert(all.take(i + 1) =~= all.take(i as int).push(all[i as int]));
        i = i + 1;
    }
    assert(all.take(n as int) =~= all);
    ids
}

/// The changes by which the samples of containers go.
fn withdraw_containers(gone: Vec<ContainerTracker>) -> (r: Vec<GaugeChange>)
    ensures
        changes(r@) == container_withdrawals(gone@.map_values(|t: ContainerTracker| t@)),
{
    let ghost all = gone@.map_values(|t: ContainerTracker| t@);
    let mut r: Vec<GaugeChange> = Vec::new();
    assert(changes(r@) =~= Seq::empty());
    assert(container_withdrawals(all.take(0)) =~= Seq::empty());
    for tracker in it: gone
        invariant
            it.seq() == gone@,
            all == gone@.map_values(|t: ContainerTracker| t@),
            changes(r@) == container_withdrawals(all.take(it.index() as int)),
    {
        let ghost i = it.index() as int;
        let ghost so_far = changes(r@);
        let ghost last = tracker@;
        let mut list = tracker.withdraw();
        r.append(&mut list);
        proof {
            let front = all.take(i).map_values(|t: TrackedContainer| t.withdrawal());
            assert(all.take(i + 1) =~= all.take(i).push(last));
            assert(all.take(i + 1).map_values(|t: TrackedContainer| t.withdrawal()) =~= front.push(
                last.withdrawal(),
            ));
            front.lemma_flatten_push(last.withdrawal());
            assert(changes(r@) =~= so_far + last.withdrawal());
        }
    }
    assert(all.take(all.len() as int) =~= all);
    r
}

/// The next of the listed, and what it makes of what is tracked.
proof fn lemma_sync_step<T>(kept: Seq<(Seq<char>, T)>, listed: Seq<(Seq<char>, T)>, i: int)
    requires
        distinct_keys(kept),
        0 <= i < listed.len(),
    ensures
        ({
            let now = added(kept, listed.take(i));
            let next = added(kept, listed.take(i + 1));
            let after = added(kept, listed);
            let (key, value) = listed[i];
            &&& has_key(now, key) ==> next == now && value_under(after, key) == value_under(now, key)
            &&& !has_key(now, key) ==> next == now.push(listed[i]) && value_under(after, key) == value
        }),
{
    let now = added(kept, listed.take(i));
    let next = added(kept, listed.take(i + 1));
    let after = added(kept, listed);
    let (key, value) = listed[i];
    assert(listed.take(i + 1).drop_last() =~= listed.take(i));
    lemma_added(kept, listed);
    lemma_added(kept, listed.take(i + 1));
    lemma_added_front(kept, listed, i);
    lemma_added_front(kept, listed, i + 1);
    if has_key(now, key) {
        lemma_value_in_front(now, after, key);
    } else {
        lemma_value_at(next, now.len() as int);
        lemma_value_in_front(next, after, key);
    }
}

/// A container that is added is one that is listed for the first time.
proof fn lemma_first_listing(
    known: Seq<(Seq<char>, TrackedContainer)>,
    containers: Seq<Container>,
    i: int,
)
    requires
        distinct_keys(known),
        0 <= i < containers.len(),
        !has_key(
            added(
                retained(known, keys(listed_containers(containers))),
                listed_containers(containers).take(i),
            ),
            containers[i].id@,
        ),
    ensures
        first_listing(known, containers, i),
{
    let listed = listed_containers(containers);
    let id = containers[i].id@;
    lemma_retained(known, keys(listed));
    lemma_added(retained(known, keys(listed)), listed.take(i));
    assert(keys(listed)[i] == id);
    assert(keys(listed).contains(id));
    assert forall|j: int| 0 <= j < i implies (#[trigger] containers[j]).id@ != id by {
        if containers[j].id@ == id {
            assert(key_at(listed.take(i), id, j));
        }
    }
}

/// What holds of every entry that was tracked and of every entry that is listed holds of every
/// entry that is tracked then.
pub proof fn lemma_synced_all<T>(
    s: Seq<(Seq<char>, T)>,
    listed: Seq<(Seq<char>, T)>,
    p: spec_fn((Seq<char>, T)) -> bool,
)
    requires
        forall|i: int| 0 <= i < s.len() ==> p(#[trigger] s[i]),
        forall|i: int| 0 <= i < listed.len() ==> p(#[trigger] listed[i]),
    ensures
        forall|i: int| 0 <= i < synced(s, listed).len() ==> p(#[trigger] synced(s, listed)[i]),
{
    let stay = |e: (Seq<char>, T)| keys(listed).contains(e.0);
    let kept = s.filter(stay);
    assert forall|i: int| 0 <= i < kept.len() implies p(#[trigger] kept[i]) by {
        s.lemma_filter_contains_rev(stay, kept[i]);
    }
    lemma_added_all(kept, listed, p);
}

proof fn lemma_added_all<T>(
    s: Seq<(Seq<char>, T)>,
    others: Seq<(Seq<char>, T)>,
    p: spec_fn((Seq<char>, T)) -> bool,
)
    requires
        forall|i: int| 0 <= i < s.len() ==> p(#[trigger] s[i]),
        forall|i: int| 0 <= i < others.len() ==> p(#[trigger] others[i]),
    ensures
        forall|i: int| 0 <= i < added(s, others).len() ==> p(#[trigger] added(s, others)[i]),
    decreases others.len(),
{
    if others.len() > 0 {
        assert forall|i: int| 0 <= i < others.drop_last().len() implies p(
            #[trigger] others.drop_last()[i],
        ) by {
            assert(p(others[i]));
        }
        lemma_added_all(s, others.drop_last(), p);
        let before = added(s, others.drop_last());
        let after = added(s, others);
        assert forall|i: int| 0 <= i < after.len() implies p(#[trigger] after[i]) by {
            if i < before.len() {
                assert(after[i] == before[i]);
            } else {
                assert(after[i] == others[others.len() - 1]);
            }
        }
    }
}

/// The changes that one more listed volume leads to.
proof fn lemma_volume_listing_step(
    known: Seq<(Seq<char>, TrackedVolume)>,
    volumes: Seq<Volume>,
    i: int,
)
    requires
        0 <= i < volumes.len(),
    ensures
        volume_listing_changes(known, volumes.take(i + 1)) == volume_listing_changes(
            known,
            volumes.take(i),
        ) + value_under(known, volumes[i].name@).usage_changes(volumes[i].usage_data),
{
    let f = |v: Volume| value_under(known, v.name@).usage_changes(v.usage_data);
    let front = volumes.take(i).map_values(f);
    assert(volumes.take(i + 1) =~= volumes.take(i).push(volumes[i]));
    assert(volumes.take(i + 1).map_values(f) =~= front.push(f(volumes[i])));
    front.lemma_flatten_push(f(volumes[i]));
}

/// The changes that one more listed image leads to.
proof fn lemma_image_listing_step(
    known: Seq<(Seq<char>, TrackedImage)>,
    images: Seq<Image>,
    i: int,
)
    requires
        0 <= i < images.len(),
    ensures
        image_listing_changes(known, images.take(i + 1)) == image_listing_changes(
            known,
            images.take(i),
        ) + value_under(known, images[i].id@).listing_changes(images[i].containers, images[i].size),
{
    let f = |i: Image| value_under(known, i.id@).listing_changes(i.containers, i.size);
    let front = images.take(i).map_values(f);
    assert(images.take(i + 1) =~= images.take(i).push(images[i]));
    assert(images.take(i + 1).map_values(f) =~= front.push(f(images[i])));
    front.lemma_flatten_push(f(images[i]));
}

} // verus!
