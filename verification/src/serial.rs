//! Which of the serial ports of the machine lead to a Pico.

use vstd::prelude::*;

verus! {

/// The USB vendor id under which Raspberry Pi boards announce themselves.
pub const PICO_USB_VID: u16 = 0x2E8A;

/// What is known of a USB product id of that vendor.
#[derive(Clone, Copy, Debug, PartialEq, Eq)]
pub struct PicoProduct {
    pub company: &'static str,
    pub description: &'static str,
    pub link: &'static str,
}

/// The product that goes by `pid` under the Raspberry Pi vendor id.
pub open spec fn pico_product_spec(pid: u16) -> Option<PicoProduct> {
    if pid == 0x0003 {
        Some(
            PicoProduct {
                company: "Raspberry Pi",
                description: "Raspberry Pi RP2040 boot",
                link: "https://www.raspberrypi.org/documentation/pico/getting-started/",
            },
        )
    } else if pid == 0x0004 {
        Some(
            PicoProduct {
                company: "Raspberry Pi",
                description: "Raspberry Pi PicoProbe",
                link: "https://github.com/raspberrypi/picoprobe/",
            },
        )
    } else if pid == 0x0005 {
        Some(
            PicoProduct {
                company: "Raspberry Pi",
                description: "Raspberry Pi Pico MicroPython firmware (CDC)",
                link: "https://micropython.org/download/rp2-pico/",
            },
        )
    } else if pid == 0x000A {
        Some(
            PicoProduct {
                company: "Raspberry Pi",
                description: "Raspberry Pi Pico SDK CDC UART",
                link: "https://raspberrypi.github.io/pico-sdk-doxygen/index.html",
            },
        )
    } else if pid == 0x000B {
        Some(
            PicoProduct {
                company: "Raspberry Pi",
                description: "Raspberry Pi Pico CircuitPython firmware",
                link: "https://circuitpython.org/board/raspberry_pi_pico/",
            },
        )
    } else if pid == 0x1001 {
        Some(
            PicoProduct {
                company: "Pimoroni",
                description: "Picade 2040",
                link: "http://pimoroni.com/picade2040",
            },
        )
    } else {
        None
    }
}

/// Looks a product id up among the known products of the vendor.
pub fn pico_product(pid: u16) -> (product: Option<PicoProduct>)
    ensures
        product == pico_product_spec(pid),
{
    match pid {
        0x0003 => Some(
            PicoProduct {
                company: "Raspberry Pi",
                description: "Raspberry Pi RP2040 boot",
                link: "https://www.raspberrypi.org/documentation/pico/getting-started/",
            },
        ),
        0x0004 => Some(
            PicoProduct {
                company: "Raspberry Pi",
                description: "Raspberry Pi PicoProbe",
                link: "https://github.com/raspberrypi/picoprobe/",
            },
        ),
        0x0005 => Some(
            PicoProduct {
                company: "Raspberry Pi",
                description: "Raspberry Pi Pico MicroPython firmware (CDC)",
                link: "https://micropython.org/download/rp2-pico/",
            },
        ),
        0x000A => Some(
            PicoProduct {
                company: "Raspberry Pi",
                description: "Raspberry Pi Pico SDK CDC UART",
                link: "https://raspberrypi.github.io/pico-sdk-doxygen/index.html",
            },
        ),
        0x000B => Some(
            PicoProduct {
                company: "Raspberry Pi",
                description: "Raspberry Pi Pico CircuitPython firmware",
                link: "https://circuitpython.org/board/raspberry_pi_pico/",
            },
        ),
        0x1001 => Some(
            PicoProduct {
                company: "Pimoroni",
                description: "Picade 2040",
                link: "http://pimoroni.com/picade2040",
            },
        ),
        _ => None,
    }
}

/// What USB says of the device behind a port.
#[derive(Clone, Debug, PartialEq, Eq)]
pub struct UsbPortInfo {
    /// Vendor id.
    pub vid: u16,
    /// Product id.
    pub pid: u16,
    pub serial_number: Option<String>,
    pub manufacturer: Option<String>,
    pub product: Option<String>,
}

/// How a serial port is attached to the machine.
#[derive(Clone, Debug, PartialEq, Eq)]
pub enum SerialPortType {
    UsbPort(UsbPortInfo),
    PciPort,
    BluetoothPort,
    Unknown,
}

/// One serial port of the machine.
#[derive(Clone, Debug, PartialEq, Eq)]
pub struct SerialPortInfo {
    pub port_name: String,
    pub port_type: SerialPortType,
}

/// A serial port behind which a Pico answers.
#[derive(Clone, Debug, PartialEq, Eq)]
pub struct UsbSerialPort {
    pub name: String,
    /// The product, where the product id is a known one.
    pub product: Option<PicoProduct>,
    pub info: UsbPortInfo,
}

/// Whether `port` is a USB port of the Raspberry Pi vendor id.
pub open spec fn is_pico_port(port: SerialPortInfo) -> bool {
    port.port_type matches SerialPortType::UsbPort(info) && info.vid == PICO_USB_VID
}

/// `port` as a Pico port.
pub open spec fn as_pico_port(port: SerialPortInfo) -> UsbSerialPort {
    let info = port.port_type->UsbPort_0;
    UsbSerialPort { name: port.port_name, product: pico_product_spec(info.pid), info }
}

/// Those of `ports` that lead to a Pico, in the order in which they come.
pub open spec fn pico_ports(ports: Seq<SerialPortInfo>) -> Seq<UsbSerialPort> {
    ports.filter(|port: SerialPortInfo| is_pico_port(port)).map_values(
        |port: SerialPortInfo| as_pico_port(port),
    )
}

/// Picks, from the serial ports of the machine, those that lead to a Pico.
pub fn get_serial_ports(available: Vec<SerialPortInfo>) -> (ports: Vec<UsbSerialPort>)
    ensures
        ports@ == pico_ports(available@),
{
    let mut ports: Vec<UsbSerialPort> = Vec::new();
    let ghost all = available@;
    for port in it: available
        invariant
            it.seq() == all,
            ports@ == pico_ports(all.take(it.index() as int)),
    {
        proof {
            let seen = all.take(it.index() as int);
            let next = all.take(it.index() + 1);
            assert(next =~= seen.push(port));
            lemma_filter_push(seen, port);
        }
        match port.port_type {
            SerialPortType::UsbPort(info) => {
                if info.vid == PICO_USB_VID {
                    let product = pico_product(info.pid);
                    ports.push(UsbSerialPort { name: port.port_name, product, info });
                }
            },
            _ => {},
        }
    }
    proof {
        assert(all.take(all.len() as int) =~= all);
    }
    ports
}

proof fn lemma_filter_push(seen: Seq<SerialPortInfo>, port: SerialPortInfo)
    ensures
        pico_ports(seen.push(port)) == if is_pico_port(port) {
            pico_ports(seen).push(as_pico_port(port))
        } else {
            pico_ports(seen)
        },
{
    let pred = |port: SerialPortInfo| is_pico_port(port);
    reveal(Seq::filter);
    assert(seen.push(port).drop_last() =~= seen);
    if is_pico_port(port) {
        assert(pico_ports(seen.push(port)) =~= pico_ports(seen).push(as_pico_port(port)));
    }
}

} // verus!
