//! What containers, volumes and images are published under.

use crate::collector::trackers::{
    display_name, has_name, nameable, tracked_image, tracked_volume, TrackedContainer, TrackedImage,
    TrackedVolume,
};
use crate::docker::{Container, Image, Volume};
use crate::string_map::{distinct_keys, has_key, key_at, lemma_value_at};
use crate::text::{
    parts_are_found, runs_are_counted_whole, trimming_leaves_what_stands_between,
    what_is_found_stands_there, white_space,
};
use vstd::prelude::*;
use vstd::utf8::{
    decode_utf8, decode_utf8_encode_utf8, decode_utf8_split, encode_scalar, encode_utf8,
    encode_utf8_decode_utf8, encode_utf8_first_scalar, encode_utf8_valid_utf8, is_char_boundary,
    is_char_boundary_iff_is_leading_byte, is_char_boundary_start_end_of_seq, valid_utf8_split,
};

verus! {

/// `name` is `text` with nothing but white space before and behind it, and `text` neither
/// begins nor ends with white space.
pub open spec fn surrounds(
    name: Seq<char>,
    front: Seq<char>,
    text: Seq<char>,
    back: Seq<char>,
) -> bool {
    &&& name == front + text + back
    &&& forall|i: int| 0 <= i < front.len() ==> white_space(#[trigger] front[i])
    &&& forall|i: int| 0 <= i < back.len() ==> white_space(#[trigger] back[i])
    &&& text.len() > 0 ==> !white_space(text[0]) && !white_space(text.last())
}

proof fn lemma_encoded_len(s: Seq<char>)
    ensures
        encode_utf8(s).len() >= s.len(),
    decreases s.len(),
{
    if s.len() > 0 {
        lemma_encoded_len(s.drop_first());
        assert(encode_scalar(s[0] as u32).len() >= 1);
    }
}

proof fn lemma_encoded_concat(a: Seq<char>, b: Seq<char>)
    ensures
        encode_utf8(a + b) == encode_utf8(a) + encode_utf8(b),
    decreases a.len(),
{
    if a.len() == 0 {
        assert(a + b =~= b);
        assert(encode_utf8(a) + encode_utf8(b) =~= encode_utf8(b));
    } else {
        assert((a + b)[0] == a[0]);
        assert((a + b).drop_first() =~= a.drop_first() + b);
        lemma_encoded_concat(a.drop_first(), b);
        assert(encode_utf8(a + b) =~= encode_utf8(a) + encode_utf8(b));
    }
}

/// A container whose first name holds more than one byte between white space is shown under
/// that name, whole, but for the slashes at its front.
pub proof fn named_containers_are_shown_under_their_name(
    c: Container,
    front: Seq<char>,
    text: Seq<char>,
    back: Seq<char>,
    slashes: nat,
    shown: Seq<char>,
)
    requires
        c.names@.len() > 0,
        surrounds(c.names@[0]@, front, text, back),
        encode_utf8(text).len() > 1,
        c.names@[0]@ == Seq::new(slashes, |i: int| '/') + shown,
        shown.len() > 0 ==> shown[0] != '/',
    ensures
        nameable(c),
        display_name(c) == shown,
{
    trimming_leaves_what_stands_between(front, text, back);
    runs_are_counted_whole(slashes, '/', shown);
    let run = Seq::new(slashes, |i: int| '/');
    assert((run + shown).skip(slashes as int) =~= shown);
}

proof fn lemma_white_end(s: Seq<char>) -> (n: int)
    requires
        exists|i: int| 0 <= i < s.len() && !white_space(#[trigger] s[i]),
    ensures
        0 <= n < s.len(),
        !white_space(s[n]),
        forall|i: int| n < i < s.len() ==> white_space(#[trigger] s[i]),
    decreases s.len(),
{
    let last = s.len() - 1;
    if white_space(s[last]) {
        let i = choose|i: int| 0 <= i < s.len() && !white_space(#[trigger] s[i]);
        assert(s.drop_last()[i] == s[i]);
        let n = lemma_white_end(s.drop_last());
        assert forall|i: int| n < i < s.len() implies white_space(#[trigger] s[i]) by {
            if i < last {
                assert(s.drop_last()[i] == s[i]);
            }
        }
        n
    } else {
        last
    }
}

/// A slash and a name is shown as the name, whatever the name's length.
pub proof fn a_slash_and_a_name_is_shown_as_the_name(c: Container, name: Seq<char>)
    requires
        c.names@.len() > 0,
        c.names@[0]@ == seq!['/'] + name,
        name.len() > 0,
        name[0] != '/',
        exists|i: int| 0 <= i < name.len() && !white_space(#[trigger] name[i]),
    ensures
        nameable(c),
        display_name(c) == name,
{
    let n = lemma_white_end(name);
    let full = c.names@[0]@;
    let front = Seq::<char>::empty();
    let text = seq!['/'] + name.take(n + 1);
    let back = name.skip(n + 1);
    assert(full =~= front + text + back);
    assert forall|i: int| 0 <= i < back.len() implies white_space(#[trigger] back[i]) by {
        assert(back[i] == name[i + n + 1]);
    }
    assert(text.last() == name[n]);
    lemma_encoded_len(text);
    let run = Seq::new(1nat, |i: int| '/');
    assert(full =~= run + name);
    named_containers_are_shown_under_their_name(c, front, text, back, 1, name);
}

/// Containers whose first names differ behind one slash are shown under different names.
pub proof fn names_stay_apart(a: Container, b: Container, name_a: Seq<char>, name_b: Seq<char>)
    requires
        a.names@.len() > 0,
        b.names@.len() > 0,
        a.names@[0]@ == seq!['/'] + name_a,
        b.names@[0]@ == seq!['/'] + name_b,
        name_a.len() > 0 && name_a[0] != '/',
        name_b.len() > 0 && name_b[0] != '/',
        exists|i: int| 0 <= i < name_a.len() && !white_space(#[trigger] name_a[i]),
        exists|i: int| 0 <= i < name_b.len() && !white_space(#[trigger] name_b[i]),
        display_name(a) == display_name(b),
    ensures
        name_a == name_b,
{
    a_slash_and_a_name_is_shown_as_the_name(a, name_a);
    a_slash_and_a_name_is_shown_as_the_name(b, name_b);
}

/// The container has no name to show: none at all, or a first one of which white space leaves
/// at most one byte.
pub open spec fn nameless(
    c: Container,
    front: Seq<char>,
    text: Seq<char>,
    back: Seq<char>,
) -> bool {
    c.names@.len() == 0 || (surrounds(c.names@[0]@, front, text, back) && encode_utf8(text).len()
        <= 1)
}

/// A container without a name is shown under the front of its identifier that takes twelve
/// bytes.
pub proof fn nameless_containers_are_shown_under_twelve_bytes(
    c: Container,
    front: Seq<char>,
    text: Seq<char>,
    back: Seq<char>,
    head: Seq<char>,
    tail: Seq<char>,
)
    requires
        nameless(c, front, text, back),
        c.id@ == head + tail,
        encode_utf8(head).len() == 12,
    ensures
        nameable(c),
        display_name(c) == head,
{
    if c.names@.len() > 0 {
        trimming_leaves_what_stands_between(front, text, back);
    }
    assert(!has_name(c));
    let bytes = encode_utf8(c.id@);
    lemma_encoded_concat(head, tail);
    assert(bytes.subrange(0, 12) =~= encode_utf8(head));
    encode_utf8_decode_utf8(head);
    encode_utf8_valid_utf8(c.id@);
    if tail.len() == 0 {
        is_char_boundary_start_end_of_seq(bytes);
    } else {
        encode_utf8_first_scalar(tail);
        lemma_encoded_len(tail);
        assert(bytes[12] == encode_utf8(tail)[0]);
        is_char_boundary_iff_is_leading_byte(bytes, 12);
    }
}

/// A container without a name can be shown only where twelve bytes of its identifier are whole
/// characters.
pub proof fn nameless_containers_need_twelve_bytes(
    c: Container,
    front: Seq<char>,
    text: Seq<char>,
    back: Seq<char>,
) -> (tail: Seq<char>)
    requires
        nameless(c, front, text, back),
        nameable(c),
    ensures
        c.id@ == display_name(c) + tail,
        encode_utf8(display_name(c)).len() == 12,
{
    if c.names@.len() > 0 {
        trimming_leaves_what_stands_between(front, text, back);
    }
    let bytes = encode_utf8(c.id@);
    encode_utf8_valid_utf8(c.id@);
    encode_utf8_decode_utf8(c.id@);
    assert(is_char_boundary(bytes, 12));
    assert(bytes.len() >= 12);
    valid_utf8_split(bytes, 12);
    decode_utf8_split(bytes, 12);
    decode_utf8_encode_utf8(bytes.subrange(0, 12));
    decode_utf8(bytes.subrange(12, bytes.len() as int))
}

/// The samples of a container are told apart by its name alone.
pub proof fn containers_are_labelled_by_name(t: TrackedContainer)
    ensures
        t.labels().len() == 1,
        t.labels()[0] == t.name,
{
}

/// Each label of a volume's samples comes from the one place it belongs to, whatever the rest
/// of the volume says: the name, whether the label for anonymous volumes is there, the driver,
/// and the texts of the labels for the compose project and the service.
pub proof fn volume_labels_come_from_the_volume(v: Volume, i: int)
    requires
        distinct_keys(v.labels@),
    ensures
        tracked_volume(v).labels().len() == 5,
        tracked_volume(v).labels()[0] == v.name@,
        tracked_volume(v).labels()[2] == v.driver@,
        0 <= i < v.labels@.len() && v.labels@[i].0 == "com.docker.volume.anonymous"@ ==>
            tracked_volume(v).labels()[1] == "true"@,
        0 <= i < v.labels@.len() && v.labels@[i].0 == "com.docker.compose.project"@ ==>
            tracked_volume(v).labels()[3] == v.labels@[i].1@,
        0 <= i < v.labels@.len() && v.labels@[i].0 == "com.docker.compose.service"@ ==>
            tracked_volume(v).labels()[4] == v.labels@[i].1@,
        (forall|j: int|
            0 <= j < v.labels@.len() ==> (#[trigger] v.labels@[j]).0
                != "com.docker.volume.anonymous"@) ==> tracked_volume(v).labels()[1] == "false"@,
        (forall|j: int|
            0 <= j < v.labels@.len() ==> (#[trigger] v.labels@[j]).0
                != "com.docker.compose.project"@) ==> tracked_volume(v).labels()[3]
            == Seq::<char>::empty(),
        (forall|j: int|
            0 <= j < v.labels@.len() ==> (#[trigger] v.labels@[j]).0
                != "com.docker.compose.service"@) ==> tracked_volume(v).labels()[4]
            == Seq::<char>::empty(),
{
    let labels = v.labels@;
    if 0 <= i < labels.len() {
        lemma_value_at(labels, i);
    }
    lemma_absent(labels, "com.docker.volume.anonymous"@);
    lemma_absent(labels, "com.docker.compose.project"@);
    lemma_absent(labels, "com.docker.compose.service"@);
}

proof fn lemma_absent<V>(s: Seq<(Seq<char>, V)>, key: Seq<char>)
    ensures
        (forall|j: int| 0 <= j < s.len() ==> (#[trigger] s[j]).0 != key) ==> !has_key(s, key),
{
    if has_key(s, key) {
        let j = choose|j: int| key_at(s, key, j);
        assert(s[j].0 == key);
    }
}

/// What a volume's samples are told apart by, and what is known of it, are the same thing.
pub proof fn volumes_are_labelled_by_what_is_known(t: TrackedVolume)
    ensures
        t.labels() == seq![t.name, t.anonymous, t.driver, t.compose_project, t.service],
{
}

/// The tag holds `<none>` somewhere.
pub open spec fn unreal(tag: Seq<char>) -> bool {
    exists|front: Seq<char>, back: Seq<char>| tag == #[trigger] (front + "<none>"@ + back)
}

proof fn lemma_unreal(tag: Seq<char>)
    ensures
        unreal(tag) == crate::text::occurs(tag, "<none>"@),
{
    if unreal(tag) {
        let (front, back) = choose|front: Seq<char>, back: Seq<char>|
            tag == #[trigger] (front + "<none>"@ + back);
        parts_are_found(front, "<none>"@, back);
    }
    if crate::text::occurs(tag, "<none>"@) {
        let (front, back) = what_is_found_stands_there(tag, "<none>"@);
        assert(tag == front + "<none>"@ + back);
    }
}

/// An image goes by the first of its tags that does not hold `<none>`.
pub proof fn images_go_by_their_first_real_tag(image: Image, i: int)
    requires
        0 <= i < image.repo_tags@.len(),
        !unreal(image.repo_tags@[i]@),
        forall|j: int| 0 <= j < i ==> unreal((#[trigger] image.repo_tags@[j])@),
    ensures
        tracked_image(image).id == image.id@,
        tracked_image(image).labels() == seq![image.repo_tags@[i]@],
{
    lemma_first_real(image.repo_tags@, i);
}

/// An image without such a tag goes by its identifier.
pub proof fn images_without_a_real_tag_go_by_their_identifier(image: Image)
    requires
        forall|j: int|
            0 <= j < image.repo_tags@.len() ==> unreal((#[trigger] image.repo_tags@[j])@),
    ensures
        tracked_image(image).id == image.id@,
        tracked_image(image).labels() == seq![image.id@],
{
    lemma_none_real(image.repo_tags@);
}

proof fn lemma_first_real(tags: Seq<String>, i: int)
    requires
        0 <= i < tags.len(),
        !unreal(tags[i]@),
        forall|j: int| 0 <= j < i ==> unreal((#[trigger] tags[j])@),
    ensures
        crate::collector::trackers::first_tag(tags) == Some(tags[i]@),
    decreases i,
{
    lemma_unreal(tags[0]@);
    if i > 0 {
        let rest = tags.drop_first();
        assert(unreal(tags[0]@));
        assert forall|j: int| 0 <= j < i - 1 implies unreal((#[trigger] rest[j])@) by {
            assert(rest[j] == tags[j + 1]);
        }
        lemma_first_real(rest, i - 1);
    }
}

proof fn lemma_none_real(tags: Seq<String>)
    requires
        forall|j: int| 0 <= j < tags.len() ==> unreal((#[trigger] tags[j])@),
    ensures
        crate::collector::trackers::first_tag(tags) is None,
    decreases tags.len(),
{
    if tags.len() > 0 {
        let rest = tags.drop_first();
        lemma_unreal(tags[0]@);
        assert(unreal(tags[0]@));
        assert forall|j: int| 0 <= j < rest.len() implies unreal((#[trigger] rest[j])@) by {
            assert(rest[j] == tags[j + 1]);
        }
        lemma_none_real(rest);
    }
}

/// The samples of an image are told apart by its tag alone.
pub proof fn images_are_labelled_by_tag(t: TrackedImage)
    ensures
        t.labels() == seq![t.tag],
{
}

} // verus!
