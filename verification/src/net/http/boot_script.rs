//! The iPXE boot script.
use vstd::prelude::*;

verus! {

/// The script that boots from the target `iqn` of the server `server_ip`.
pub open spec fn script(iqn: Seq<char>, server_ip: Seq<char>) -> Seq<char> {
    "#!ipxe\nset initiator-iqn "@ + iqn + "\nset keep-san 1\nsanboot iscsi:"@ + server_ip
        + "::::"@ + iqn + "\n"@
}

/// Generate an iPXE script that sanboots from the given iSCSI target.
///
/// `keep-san 1` keeps the SAN drive registered in the iBFT on every exit path
/// of `sanboot`, so the Windows kernel can always find the boot target when it
/// takes over from the firmware. The image itself must still be patched for
/// boot-start NIC drivers.
pub fn generate(iqn: &str, server_ip: &str) -> (s: String)
    ensures
        s@ == script(iqn@, server_ip@),
{
    let mut s: String = String::from_str("#!ipxe\nset initiator-iqn ");
    s.append(iqn);
    s.append("\nset keep-san 1\nsanboot iscsi:");
    s.append(server_ip);
    s.append("::::");
    s.append(iqn);
    s.append("\n");
    s
}

/// The script has four lines: what it is, the name that the client takes, that
/// the drive is kept, and the drive to boot from.
pub proof fn script_has_four_lines(iqn: Seq<char>, server_ip: Seq<char>)
    ensures
        ({
            let end = seq!['\n'];
            script(iqn, server_ip) == "#!ipxe"@ + end + "set initiator-iqn "@ + iqn + end
                + "set keep-san 1"@ + end + "sanboot iscsi:"@ + server_ip + "::::"@ + iqn + end
        }),
{
    reveal_strlit("#!ipxe\nset initiator-iqn ");
    reveal_strlit("\nset keep-san 1\nsanboot iscsi:");
    reveal_strlit("::::");
    reveal_strlit("\n");
    reveal_strlit("#!ipxe");
    reveal_strlit("set initiator-iqn ");
    reveal_strlit("set keep-san 1");
    reveal_strlit("sanboot iscsi:");
    let end = seq!['\n'];
    assert("#!ipxe\nset initiator-iqn "@ =~= "#!ipxe"@ + end + "set initiator-iqn "@);
    assert("\nset keep-san 1\nsanboot iscsi:"@ =~= end + "set keep-san 1"@ + end
        + "sanboot iscsi:"@);
    assert("\n"@ =~= end);
    let a = "#!ipxe"@ + end + "set initiator-iqn "@ + iqn;
    assert(a + (end + "set keep-san 1"@ + end + "sanboot iscsi:"@) =~= a + end + "set keep-san 1"@
        + end + "sanboot iscsi:"@);
}

} // verus!
