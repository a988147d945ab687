//! The virtual mouse: what it can do, and how it introduces itself.

use vstd::prelude::*;
use vstd::string::*;

use crate::codes::{
    BTN_BACK, BTN_EXTRA, BTN_FORWARD, BTN_LEFT, BTN_MIDDLE, BTN_RIGHT, BTN_SIDE, BTN_TASK, BUS_USB,
    EV_KEY, EV_REL, EV_SYN, INPUT_PROP_POINTER, REL_HWHEEL, REL_HWHEEL_HI_RES, REL_WHEEL,
    REL_WHEEL_HI_RES, REL_X, REL_Y, UI_SET_EVBIT, UI_SET_KEYBIT, UI_SET_PROPBIT, UI_SET_RELBIT,
};
use crate::event::{complement32, complement_of_i32, le_bytes, lemma_le_bytes_len, push_le};

verus! {

/// Who a device says it is.
#[derive(Copy, Clone, Debug, PartialEq, Eq, Structural)]
pub struct InputId {
    pub bustype: u16,
    pub vendor: u16,
    pub product: u16,
    pub version: u16,
}

/// The kernel's `struct uinput_user_dev`.
pub struct UInputUserDev {
    pub name: [u8; 80],
    pub id: InputId,
    pub ff_effects_max: u32,
    pub absmax: [i32; 64],
    pub absmin: [i32; 64],
    pub absfuzz: [i32; 64],
    pub absflat: [i32; 64],
}

/// One step in creating the virtual mouse.
#[derive(Copy, Clone, Debug, PartialEq, Eq, Structural)]
pub enum SetupStep {
    /// Announce a capability; if it is `required` and the kernel refuses, there
    /// is no virtual mouse.
    Announce { request: u64, value: i32, required: bool },
    /// Write the record of the device.
    Describe,
    /// Create the device.
    Create,
    /// Give the desktop this long to notice the device.
    Settle { millis: u64 },
}

pub const DEVICE_NAME: &'static str = "debounced virtual mouse";

/// The size of the record of a device in bytes.
pub const DEVICE_SIZE: usize = 1116;

/// The bytes of `values`, four each.
pub open spec fn le_words(values: Seq<i32>) -> Seq<u8>
    decreases values.len(),
{
    if values.len() == 0 {
        Seq::empty()
    } else {
        le_words(values.drop_last()) + le_bytes(complement32(values.last() as int), 4)
    }
}

/// `text` in bytes, filled up with zeros to a length of `n`.
pub open spec fn padded(text: Seq<char>, n: nat) -> Seq<u8> {
    Seq::new(
        n,
        |i: int|
            if i < text.len() {
                text[i] as u8
            } else {
                0
            },
    )
}

/// The announcement of each of `codes` under `request`.
pub open spec fn announcements(request: u64, codes: Seq<u16>) -> Seq<SetupStep> {
    codes.map_values(
        |code: u16| SetupStep::Announce { request, value: code as i32, required: true },
    )
}

/// The steps that create the virtual mouse, in order. That it is a pointer is
/// only a hint, which not every kernel takes.
pub open spec fn setup_plan() -> Seq<SetupStep> {
    announcements(UI_SET_EVBIT, seq![EV_KEY, EV_REL, EV_SYN]) + announcements(
        UI_SET_KEYBIT,
        seq![
            BTN_LEFT,
            BTN_RIGHT,
            BTN_MIDDLE,
            BTN_SIDE,
            BTN_EXTRA,
            BTN_FORWARD,
            BTN_BACK,
            BTN_TASK,
        ],
    ) + announcements(
        UI_SET_RELBIT,
        seq![REL_X, REL_Y, REL_WHEEL, REL_HWHEEL, REL_WHEEL_HI_RES, REL_HWHEEL_HI_RES],
    ) + seq![
        SetupStep::Announce { request: UI_SET_PROPBIT, value: INPUT_PROP_POINTER, required: false },
        SetupStep::Describe,
        SetupStep::Create,
        SetupStep::Settle { millis: 100 },
    ]
}

/// Appends the announcement of each of `codes` under `request`.
fn announce(steps: &mut Vec<SetupStep>, request: u64, codes: &[u16])
    ensures
        final(steps)@ == old(steps)@ + announcements(request, codes@),
{
    let mut i: usize = 0;
    assert(steps@ =~= old(steps)@ + announcements(request, codes@.take(0)));
    while i < codes.len()
        invariant
            i <= codes@.len(),
            steps@ == old(steps)@ + announcements(request, codes@.take(i as int)),
        decreases codes.len() - i,
    {
        steps.push(SetupStep::Announce { request, value: codes[i] as i32, required: true });
        assert(codes@.take(i + 1) =~= codes@.take(i as int).push(codes@[i as int]));
        assert(announcements(request, codes@.take(i + 1)) =~= announcements(
            request,
            codes@.take(i as int),
        ).push(steps@.last()));
        assert(steps@ =~= old(steps)@ + announcements(request, codes@.take(i + 1)));
        i = i + 1;
    }
    assert(codes@.take(i as int) =~= codes@);
}

/// The steps that create the virtual mouse, in order.
pub fn virtual_mouse_setup() -> (steps: Vec<SetupStep>)
    ensures
        steps@ == setup_plan(),
{
    let mut steps: Vec<SetupStep> = Vec::new();
    announce(&mut steps, UI_SET_EVBIT, &[EV_KEY, EV_REL, EV_SYN]);
    announce(
        &mut steps,
        UI_SET_KEYBIT,
        &[
            BTN_LEFT,
            BTN_RIGHT,
            BTN_MIDDLE,
            BTN_SIDE,
            BTN_EXTRA,
            BTN_FORWARD,
            BTN_BACK,
            BTN_TASK,
        ],
    );
    announce(
        &mut steps,
        UI_SET_RELBIT,
        &[REL_X, REL_Y, REL_WHEEL, REL_HWHEEL, REL_WHEEL_HI_RES, REL_HWHEEL_HI_RES],
    );
    steps.push(
        SetupStep::Announce { request: UI_SET_PROPBIT, value: INPUT_PROP_POINTER, required: false },
    );
    steps.push(SetupStep::Describe);
    steps.push(SetupStep::Create);
    steps.push(SetupStep::Settle { millis: 100 });
    assert(steps@ =~= setup_plan());
    steps
}

/// Whether the set-up goes on after `step`, which the kernel `accepted` or not.
pub open spec fn goes_on(step: SetupStep, accepted: bool) -> bool {
    accepted || match step {
        SetupStep::Announce { required, .. } => !required,
        _ => false,
    }
}

/// Whether the set-up goes on after `step`, which the kernel `accepted` or not:
/// a refusal ends it, unless it was of something that is not required.
pub fn setup_goes_on(step: SetupStep, accepted: bool) -> (go_on: bool)
    ensures
        go_on == (accepted || (step matches SetupStep::Announce { required, .. } && !required)),
        go_on == goes_on(step, accepted),
{
    match step {
        SetupStep::Announce { required, .. } => accepted || !required,
        _ => accepted,
    }
}

/// Appends the bytes of `values`, four each.
fn push_words(out: &mut Vec<u8>, values: &[i32])
    ensures
        final(out)@ == old(out)@ + le_words(values@),
{
    let mut i: usize = 0;
    assert(values@.take(0) =~= Seq::empty());
    assert(out@ =~= old(out)@ + le_words(values@.take(0)));
    while i < values.len()
        invariant
            i <= values@.len(),
            out@ == old(out)@ + le_words(values@.take(i as int)),
        decreases values.len() - i,
    {
        push_le(out, complement_of_i32(values[i]) as u64, 4);
        assert(values@.take(i + 1).drop_last() =~= values@.take(i as int));
        assert(out@ =~= old(out)@ + le_words(values@.take(i + 1)));
        i = i + 1;
    }
    assert(values@.take(i as int) =~= values@);
}

impl UInputUserDev {
    /// The device's record.
    pub open spec fn bytes(self) -> Seq<u8> {
        self.name@ + le_bytes(self.id.bustype as nat, 2) + le_bytes(self.id.vendor as nat, 2)
            + le_bytes(self.id.product as nat, 2) + le_bytes(self.id.version as nat, 2) + le_bytes(
            self.ff_effects_max as nat,
            4,
        ) + le_words(self.absmax@) + le_words(self.absmin@) + le_words(self.absfuzz@) + le_words(
            self.absflat@,
        )
    }

    /// The virtual mouse: a USB device without absolute axes and force
    /// feedback.
    pub fn virtual_mouse() -> (dev: UInputUserDev)
        ensures
            dev.name@ == padded(DEVICE_NAME@, 80),
            dev.id == (InputId {
                bustype: BUS_USB,
                vendor: 0xfeed,
                product: 0xdeb0,
                version: 1,
            }),
            dev.ff_effects_max == 0,
            forall|i: int| 0 <= i < 64 ==> #[trigger] dev.absmax@[i] == 0,
            forall|i: int| 0 <= i < 64 ==> #[trigger] dev.absmin@[i] == 0,
            forall|i: int| 0 <= i < 64 ==> #[trigger] dev.absfuzz@[i] == 0,
            forall|i: int| 0 <= i < 64 ==> #[trigger] dev.absflat@[i] == 0,
    {
        let text: &[u8] = DEVICE_NAME.as_bytes();
        proof {
            reveal_strlit("debounced virtual mouse");
            assert(is_ascii(DEVICE_NAME));
        }
        let mut name = [0u8; 80];
        let mut i: usize = 0;
        while i < text.len()
            invariant
                i <= text@.len() <= 80,
                forall|j: int| 0 <= j < i ==> name@[j] == text@[j],
                forall|j: int| i <= j < 80 ==> name@[j] == 0,
            decreases text.len() - i,
        {
            name[i] = text[i];
            i = i + 1;
        }
        assert(name@ =~= padded(DEVICE_NAME@, 80));
        UInputUserDev {
            name,
            id: InputId { bustype: BUS_USB, vendor: 0xfeed, product: 0xdeb0, version: 1 },
            ff_effects_max: 0,
            absmax: [0; 64],
            absmin: [0; 64],
            absfuzz: [0; 64],
            absflat: [0; 64],
        }
    }

    /// The device's record.
    pub fn as_bytes(&self) -> (bytes: Vec<u8>)
        ensures
            bytes@ == self.bytes(),
            bytes@.len() == DEVICE_SIZE,
    {
        let mut bytes: Vec<u8> = Vec::with_capacity(DEVICE_SIZE);
        bytes.extend_from_slice(self.name.as_slice());
        assert(bytes@ =~= self.name@);
        push_le(&mut bytes, self.id.bustype as u64, 2);
        push_le(&mut bytes, self.id.vendor as u64, 2);
        push_le(&mut bytes, self.id.product as u64, 2);
        push_le(&mut bytes, self.id.version as u64, 2);
        push_le(&mut bytes, self.ff_effects_max as u64, 4);
        push_words(&mut bytes, self.absmax.as_slice());
        push_words(&mut bytes, self.absmin.as_slice());
        push_words(&mut bytes, self.absfuzz.as_slice());
        push_words(&mut bytes, self.absflat.as_slice());
        proof {
            lemma_le_bytes_len(self.id.bustype as nat, 2);
            lemma_le_bytes_len(self.id.vendor as nat, 2);
            lemma_le_bytes_len(self.id.product as nat, 2);
            lemma_le_bytes_len(self.id.version as nat, 2);
            lemma_le_bytes_len(self.ff_effects_max as nat, 4);
            lemma_le_words_len(self.absmax@);
            lemma_le_words_len(self.absmin@);
            lemma_le_words_len(self.absfuzz@);
            lemma_le_words_len(self.absflat@);
        }
        bytes
    }
}

proof fn lemma_le_words_len(values: Seq<i32>)
    ensures
        le_words(values).len() == 4 * values.len(),
    decreases values.len(),
{
    if values.len() > 0 {
        lemma_le_words_len(values.drop_last());
        lemma_le_bytes_len(complement32(values.last() as int), 4);
    }
}

} // verus!
