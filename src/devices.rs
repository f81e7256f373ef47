use vstd::prelude::*;

verus! {

/// A PCI vendor and device number pair.
#[derive(Copy, Clone, Debug, PartialEq, Eq, Structural)]
pub struct DeviceId {
    pub vendor_id: u16,
    pub device_id: u16,
}

/// Lower-case hexadecimal digit for `d < 16`.
pub open spec fn hex_digit(d: nat) -> char {
    if d < 10 { ((48 + d) as u8) as char } else { ((87 + d) as u8) as char }
}

/// Lower-case hexadecimal form of `x`, without leading zeros.
pub open spec fn hex(x: nat) -> Seq<char>
    decreases x,
{
    if x < 16 { seq![hex_digit(x)] } else { hex(x / 16).push(hex_digit(x % 16)) }
}

fn digit_str(d: u16) -> (r: &'static str)
    requires
        d < 16,
    ensures
        r@ == seq![hex_digit(d as nat)],
{
    proof {
        reveal_strlit("0"); reveal_strlit("1"); reveal_strlit("2"); reveal_strlit("3");
        reveal_strlit("4"); reveal_strlit("5"); reveal_strlit("6"); reveal_strlit("7");
        reveal_strlit("8"); reveal_strlit("9"); reveal_strlit("a"); reveal_strlit("b");
        reveal_strlit("c"); reveal_strlit("d"); reveal_strlit("e"); reveal_strlit("f");
    }
    let r = match d {
        0 => "0", 1 => "1", 2 => "2", 3 => "3", 4 => "4", 5 => "5", 6 => "6", 7 => "7",
        8 => "8", 9 => "9", 10 => "a", 11 => "b", 12 => "c", 13 => "d", 14 => "e", _ => "f",
    };
    assert(r@ =~= seq![hex_digit(d as nat)]);
    r
}

fn push_hex(s: &mut String, x: u16)
    ensures
        final(s)@ == old(s)@ + hex(x as nat),
    decreases x,
{
    if x >= 16 {
        push_hex(s, x / 16);
    }
    s.append(digit_str(x % 16));
    assert(final(s)@ =~= old(s)@ + hex(x as nat));
}

impl DeviceId {
    pub fn new(vid: u16, did: u16) -> (r: Self)
        ensures
            r.vendor_id == vid,
            r.device_id == did,
    {
        DeviceId { vendor_id: vid, device_id: did }
    }

    /// The device's name: `pci`, the vendor number in hexadecimal, a comma,
    /// the device number in hexadecimal.
    pub fn name(&self) -> (r: String)
        ensures
            r@ == seq!['p', 'c', 'i'] + hex(self.vendor_id as nat) + seq![','] + hex(self.device_id as nat),
    {
        proof {
            reveal_strlit("pci");
            reveal_strlit(",");
        }
        let mut s = String::from_str("pci");
        push_hex(&mut s, self.vendor_id);
        s.append(",");
        push_hex(&mut s, self.device_id);
        assert(s@ =~= seq!['p', 'c', 'i'] + hex(self.vendor_id as nat) + seq![','] + hex(self.device_id as nat));
        s
    }
}

/// A device known to the kernel.
pub struct Device {
    name: String,
    deviceid: DeviceId,
    attached: bool,
}

impl Device {
    pub closed spec fn spec_name(&self) -> Seq<char> {
        self.name@
    }

    pub closed spec fn spec_id(&self) -> DeviceId {
        self.deviceid
    }

    pub closed spec fn spec_attached(&self) -> bool {
        self.attached
    }

    /// The root of the device tree, named `/`.
    pub fn root() -> (r: Self)
        ensures
            r.spec_name() == seq!['/'],
            r.spec_id() == (DeviceId { vendor_id: 1, device_id: 2 }),
            !r.spec_attached(),
    {
        proof {
            reveal_strlit("/");
        }
        Device { name: String::from_str("/"), deviceid: DeviceId::new(0x0001, 0x0002), attached: false }
    }

    /// The parent of devices that stand for no hardware.
    pub fn pseudo() -> (r: Self)
        ensures
            r.spec_name() == seq!['p', 's', 'e', 'u', 'd', 'o'],
            r.spec_id() == (DeviceId { vendor_id: 0, device_id: 0 }),
            !r.spec_attached(),
    {
        proof {
            reveal_strlit("pseudo");
        }
        let r = Device { name: String::from_str("pseudo"), deviceid: DeviceId::new(0, 0), attached: false };
        assert(r.spec_name() =~= seq!['p', 's', 'e', 'u', 'd', 'o']);
        r
    }

    pub fn name(&self) -> (r: &str)
        ensures
            r@ == self.spec_name(),
    {
        self.name.as_str()
    }

    pub fn id(&self) -> (r: DeviceId)
        ensures
            r == self.spec_id(),
    {
        self.deviceid
    }
}

/// A node of the device tree; it owns its children, and names its parent by
/// position only.
pub struct DeviceNode {
    device: Device,
    parent: Option<usize>,
    children: Vec<DeviceNode>,
}

impl DeviceNode {
    pub closed spec fn spec_device(&self) -> Device {
        self.device
    }

    pub closed spec fn spec_parent(&self) -> Option<usize> {
        self.parent
    }

    pub closed spec fn spec_children(&self) -> Seq<DeviceNode> {
        self.children@
    }

    /// A tree holding only the root device.
    pub fn new() -> (r: Self)
        ensures
            r.spec_device().spec_name() == seq!['/'],
            r.spec_parent() is None,
            r.spec_children().len() == 0,
    {
        DeviceNode { device: Device::root(), parent: None, children: Vec::new() }
    }

    /// A tree holding only the pseudo device.
    pub fn pseudo() -> (r: Self)
        ensures
            r.spec_device().spec_name() == seq!['p', 's', 'e', 'u', 'd', 'o'],
            r.spec_parent() is None,
            r.spec_children().len() == 0,
    {
        DeviceNode { device: Device::pseudo(), parent: None, children: Vec::new() }
    }

    /// Adds `devnode` as the last child.
    pub fn add_child(&mut self, devnode: DeviceNode)
        ensures
            final(self).spec_device() == old(self).spec_device(),
            final(self).spec_parent() == old(self).spec_parent(),
            final(self).spec_children() == old(self).spec_children().push(devnode),
    {
        self.children.push(devnode);
    }

    /// Number of children.
    pub fn child_count(&self) -> (r: usize)
        ensures
            r == self.spec_children().len(),
    {
        self.children.len()
    }
}

/// The device tree and the devices registered with it.
pub struct DeviceManager {
    root: DeviceNode,
    devices: Vec<Device>,
}

impl DeviceManager {
    pub closed spec fn spec_root(&self) -> DeviceNode {
        self.root
    }

    pub closed spec fn spec_devices(&self) -> Seq<Device> {
        self.devices@
    }

    /// A manager whose tree holds only the root.
    pub fn new() -> (r: Self)
        ensures
            r.spec_root().spec_device().spec_name() == seq!['/'],
            r.spec_root().spec_children().len() == 0,
            r.spec_devices().len() == 0,
    {
        DeviceManager { root: DeviceNode::new(), devices: Vec::new() }
    }

    /// Records a device.
    pub fn register(&mut self, device: Device)
        ensures
            final(self).spec_root() == old(self).spec_root(),
            final(self).spec_devices() == old(self).spec_devices().push(device),
    {
        self.devices.push(device);
    }

    /// Number of registered devices.
    pub fn device_count(&self) -> (r: usize)
        ensures
            r == self.spec_devices().len(),
    {
        self.devices.len()
    }

    /// Name of the scheme through which the tree is reached.
    pub fn scheme(&self) -> (r: &'static str)
        ensures
            r@ == seq!['d', 'e', 'v', 'i', 'c', 'e', 's'],
    {
        proof {
            reveal_strlit("devices");
        }
        let r = "devices";
        assert(r@ =~= seq!['d', 'e', 'v', 'i', 'c', 'e', 's']);
        r
    }
}

} // verus!
