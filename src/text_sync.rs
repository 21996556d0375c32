//! Keeping bound text consumers in step with text leaves.
use vstd::prelude::*;

verus! {

/// Binds a text consumer to the text asset with handle `handle`.
#[derive(Clone, Copy, Debug, PartialEq, Eq, Structural)]
pub struct UiDataText {
    pub handle: u64,
}

/// A text consumer: its binding, and the sections of text it shows.
#[derive(Debug, PartialEq)]
pub struct BoundText {
    pub binding: UiDataText,
    pub sections: Vec<String>,
}

/// A change to a registered asset.
#[derive(Clone, Copy, Debug, PartialEq, Eq, Structural)]
pub enum AssetEvent {
    Created(u64),
    Modified(u64),
    Removed(u64),
}

/// A registered text asset.
#[derive(Clone, Debug, PartialEq)]
pub struct TextAsset {
    pub handle: u64,
    pub text: String,
}

/// The first index from `j` on of an asset with handle `h`, or -1.
pub open spec fn asset_index(assets: Seq<TextAsset>, h: u64, j: int) -> int
    decreases assets.len() - j,
{
    if j < 0 || j >= assets.len() {
        -1
    } else if assets[j].handle == h {
        j
    } else {
        asset_index(assets, h, j + 1)
    }
}

/// The text of the asset with handle `h`, if there is one.
pub open spec fn text_of(assets: Seq<TextAsset>, h: u64) -> Option<Seq<char>> {
    let j = asset_index(assets, h, 0);
    if j >= 0 {
        Some(assets[j].text@)
    } else {
        None
    }
}

/// Some event creates or modifies the asset with handle `h`.
pub open spec fn changed_by(events: Seq<AssetEvent>, h: u64) -> bool {
    exists|i: int|
        0 <= i < events.len() && (#[trigger] events[i] == AssetEvent::Created(h) || events[i]
            == AssetEvent::Modified(h))
}

/// `new` is `old` with `text`, where there is one, pushed to its first
/// section; a consumer without sections is left as it is.
pub open spec fn pushed(new: BoundText, old: BoundText, text: Option<Seq<char>>) -> bool {
    &&& new.binding == old.binding
    &&& new.sections@.len() == old.sections@.len()
    &&& forall|i: int| 1 <= i < old.sections@.len() ==> (#[trigger] new.sections@[i])@ == old.sections@[i]@
    &&& old.sections@.len() > 0 ==> new.sections@[0]@ == match text {
        Some(t) => t,
        None => old.sections@[0]@,
    }
}

fn find_text(assets: &Vec<TextAsset>, h: u64) -> (r: Option<&String>)
    ensures
        match r {
            Some(t) => text_of(assets@, h) == Some(t@),
            None => text_of(assets@, h) is None,
        },
{
    let mut j: usize = 0;
    while j < assets.len()
        invariant
            j <= assets.len(),
            asset_index(assets@, h, 0) == asset_index(assets@, h, j as int),
        decreases assets.len() - j,
    {
        if assets[j].handle == h {
            return Some(&assets[j].text);
        }
        j = j + 1;
    }
    None
}

fn is_changed(events: &Vec<AssetEvent>, h: u64) -> (r: bool)
    ensures
        r == changed_by(events@, h),
{
    let mut i: usize = 0;
    while i < events.len()
        invariant
            i <= events.len(),
            forall|k: int|
                0 <= k < i ==> !(#[trigger] events@[k] == AssetEvent::Created(h) || events@[k]
                    == AssetEvent::Modified(h)),
        decreases events.len() - i,
    {
        match events[i] {
            AssetEvent::Created(x) => {
                if x == h {
                    return true;
                }
            },
            AssetEvent::Modified(x) => {
                if x == h {
                    return true;
                }
            },
            AssetEvent::Removed(_) => {},
        }
        i = i + 1;
    }
    false
}

fn with_text(old: &BoundText, text: Option<&String>) -> (r: BoundText)
    ensures
        pushed(r, *old, match text {
            Some(t) => Some(t@),
            None => None,
        }),
{
    let mut sections: Vec<String> = Vec::new();
    let mut i: usize = 0;
    while i < old.sections.len()
        invariant
            i <= old.sections.len(),
            sections@.len() == i,
            forall|k: int|
                0 <= k < i ==> (#[trigger] sections@[k])@ == if k == 0 && text is Some {
                    text->Some_0@
                } else {
                    old.sections@[k]@
                },
        decreases old.sections.len() - i,
    {
        let s = match text {
            Some(t) => {
                if i == 0 {
                    t.clone()
                } else {
                    old.sections[i].clone()
                }
            },
            None => old.sections[i].clone(),
        };
        sections.push(s);
        i = i + 1;
    }
    BoundText { binding: old.binding, sections }
}

impl UiDataText {
    /// Pushes the text of every created or modified asset to the consumers
    /// bound to it.
    pub fn keep_in_sync(events: &Vec<AssetEvent>, assets: &Vec<TextAsset>, targets: &mut Vec<BoundText>)
        ensures
            final(targets)@.len() == old(targets)@.len(),
            forall|k: int|
                0 <= k < old(targets)@.len() ==> pushed(
                    #[trigger] final(targets)@[k],
                    old(targets)@[k],
                    if changed_by(events@, old(targets)@[k].binding.handle) {
                        text_of(assets@, old(targets)@[k].binding.handle)
                    } else {
                        None
                    },
                ),
    {
        let mut k: usize = 0;
        while k < targets.len()
            invariant
                k <= targets.len(),
                targets@.len() == old(targets)@.len(),
                forall|j: int| k <= j < targets@.len() ==> #[trigger] targets@[j] == old(targets)@[j],
                forall|j: int|
                    0 <= j < k ==> pushed(
                        #[trigger] targets@[j],
                        old(targets)@[j],
                        if changed_by(events@, old(targets)@[j].binding.handle) {
                            text_of(assets@, old(targets)@[j].binding.handle)
                        } else {
                            None
                        },
                    ),
            decreases targets.len() - k,
        {
            let h = targets[k].binding.handle;
            let text = if is_changed(events, h) {
                find_text(assets, h)
            } else {
                None
            };
            let updated = with_text(&targets[k], text);
            targets.set(k, updated);
            k = k + 1;
        }
    }

    /// Pushes the current text to consumers that have just been bound.
    pub fn when_inserted(assets: &Vec<TextAsset>, targets: &mut Vec<BoundText>)
        ensures
            final(targets)@.len() == old(targets)@.len(),
            forall|k: int|
                0 <= k < old(targets)@.len() ==> pushed(
                    #[trigger] final(targets)@[k],
                    old(targets)@[k],
                    text_of(assets@, old(targets)@[k].binding.handle),
                ),
    {
        let mut k: usize = 0;
        while k < targets.len()
            invariant
                k <= targets.len(),
                targets@.len() == old(targets)@.len(),
                forall|j: int| k <= j < targets@.len() ==> #[trigger] targets@[j] == old(targets)@[j],
                forall|j: int|
                    0 <= j < k ==> pushed(
                        #[trigger] targets@[j],
                        old(targets)@[j],
                        text_of(assets@, old(targets)@[j].binding.handle),
                    ),
            decreases targets.len() - k,
        {
            let h = targets[k].binding.handle;
            let text = find_text(assets, h);
            let updated = with_text(&targets[k], text);
            targets.set(k, updated);
            k = k + 1;
        }
    }
}

} // verus!
