//! dnsproxyd status codes (netd's ResponseCode.h) and the status line that
//! starts every reply.
use vstd::prelude::*;

use crate::dns::wire::append_bytes;

verus! {

/// Response codes of the netd command protocol.
#[derive(Debug, Clone, Copy, PartialEq, Eq, Structural)]
pub enum DnsProxyStatus {
    ActionInitiated,
    InterfaceListResult,
    TetherInterfaceListResult,
    TetherDnsFwdTgtListResult,
    TtyListResult,
    TetheringStatsListResult,
    TetherDnsFwdNetIdResult,
    CommandOkay,
    TetherStatusResult,
    IpFwdStatusResult,
    InterfaceGetCfgResult,
    UsbRNDISStatusResult,
    InterfaceRxCounterResult,
    InterfaceTxCounterResult,
    InterfaceRxThrottleResult,
    InterfaceTxThrottleResult,
    QuotaCounterResult,
    TetheringStatsResult,
    DnsProxyQueryResult,
    ClatdStatusResult,
    OperationFailed,
    DnsProxyOperationFailed,
    ServiceStartFailed,
    ServiceStopFailed,
    CommandSyntaxError,
    CommandParameterError,
    InterfaceChange,
    BandwidthControl,
    ServiceDiscoveryFailed,
    ServiceDiscoveryServiceAdded,
    ServiceDiscoveryServiceRemoved,
    ServiceRegistrationFailed,
    ServiceRegistrationSucceeded,
    ServiceResolveFailed,
    ServiceResolveSuccess,
    ServiceSetHostnameFailed,
    ServiceSetHostnameSuccess,
    ServiceGetAddrInfoFailed,
    ServiceGetAddrInfoSuccess,
    InterfaceClassActivity,
    InterfaceAddressChange,
    InterfaceDnsInfo,
    RouteChange,
    StrictCleartext,
}

/// The numeric code of each status.
pub open spec fn status_code(s: DnsProxyStatus) -> u16 {
    match s {
        DnsProxyStatus::ActionInitiated => 100,
        DnsProxyStatus::InterfaceListResult => 110,
        DnsProxyStatus::TetherInterfaceListResult => 111,
        DnsProxyStatus::TetherDnsFwdTgtListResult => 112,
        DnsProxyStatus::TtyListResult => 113,
        DnsProxyStatus::TetheringStatsListResult => 114,
        DnsProxyStatus::TetherDnsFwdNetIdResult => 115,
        DnsProxyStatus::CommandOkay => 200,
        DnsProxyStatus::TetherStatusResult => 210,
        DnsProxyStatus::IpFwdStatusResult => 211,
        DnsProxyStatus::InterfaceGetCfgResult => 213,
        DnsProxyStatus::UsbRNDISStatusResult => 215,
        DnsProxyStatus::InterfaceRxCounterResult => 216,
        DnsProxyStatus::InterfaceTxCounterResult => 217,
        DnsProxyStatus::InterfaceRxThrottleResult => 218,
        DnsProxyStatus::InterfaceTxThrottleResult => 219,
        DnsProxyStatus::QuotaCounterResult => 220,
        DnsProxyStatus::TetheringStatsResult => 221,
        DnsProxyStatus::DnsProxyQueryResult => 222,
        DnsProxyStatus::ClatdStatusResult => 223,
        DnsProxyStatus::OperationFailed => 400,
        DnsProxyStatus::DnsProxyOperationFailed => 401,
        DnsProxyStatus::ServiceStartFailed => 402,
        DnsProxyStatus::ServiceStopFailed => 403,
        DnsProxyStatus::CommandSyntaxError => 500,
        DnsProxyStatus::CommandParameterError => 501,
        DnsProxyStatus::InterfaceChange => 600,
        DnsProxyStatus::BandwidthControl => 601,
        DnsProxyStatus::ServiceDiscoveryFailed => 602,
        DnsProxyStatus::ServiceDiscoveryServiceAdded => 603,
        DnsProxyStatus::ServiceDiscoveryServiceRemoved => 604,
        DnsProxyStatus::ServiceRegistrationFailed => 605,
        DnsProxyStatus::ServiceRegistrationSucceeded => 606,
        DnsProxyStatus::ServiceResolveFailed => 607,
        DnsProxyStatus::ServiceResolveSuccess => 608,
        DnsProxyStatus::ServiceSetHostnameFailed => 609,
        DnsProxyStatus::ServiceSetHostnameSuccess => 610,
        DnsProxyStatus::ServiceGetAddrInfoFailed => 611,
        DnsProxyStatus::ServiceGetAddrInfoSuccess => 612,
        DnsProxyStatus::InterfaceClassActivity => 613,
        DnsProxyStatus::InterfaceAddressChange => 614,
        DnsProxyStatus::InterfaceDnsInfo => 615,
        DnsProxyStatus::RouteChange => 616,
        DnsProxyStatus::StrictCleartext => 617,
    }
}

/// The status line: three ASCII digits of the code and a NUL.
pub open spec fn status_line(code: u16) -> Seq<u8> {
    seq![
        (48 + (code / 100) % 10) as u8,
        (48 + (code / 10) % 10) as u8,
        (48 + code % 10) as u8,
        0u8,
    ]
}

impl DnsProxyStatus {
    /// The numeric response code.
    pub fn code(self) -> (c: u16)
        ensures
            c == status_code(self),
    {
        match self {
            DnsProxyStatus::ActionInitiated => 100,
            DnsProxyStatus::InterfaceListResult => 110,
            DnsProxyStatus::TetherInterfaceListResult => 111,
            DnsProxyStatus::TetherDnsFwdTgtListResult => 112,
            DnsProxyStatus::TtyListResult => 113,
            DnsProxyStatus::TetheringStatsListResult => 114,
            DnsProxyStatus::TetherDnsFwdNetIdResult => 115,
            DnsProxyStatus::CommandOkay => 200,
            DnsProxyStatus::TetherStatusResult => 210,
            DnsProxyStatus::IpFwdStatusResult => 211,
            DnsProxyStatus::InterfaceGetCfgResult => 213,
            DnsProxyStatus::UsbRNDISStatusResult => 215,
            DnsProxyStatus::InterfaceRxCounterResult => 216,
            DnsProxyStatus::InterfaceTxCounterResult => 217,
            DnsProxyStatus::InterfaceRxThrottleResult => 218,
            DnsProxyStatus::InterfaceTxThrottleResult => 219,
            DnsProxyStatus::QuotaCounterResult => 220,
            DnsProxyStatus::TetheringStatsResult => 221,
            DnsProxyStatus::DnsProxyQueryResult => 222,
            DnsProxyStatus::ClatdStatusResult => 223,
            DnsProxyStatus::OperationFailed => 400,
            DnsProxyStatus::DnsProxyOperationFailed => 401,
            DnsProxyStatus::ServiceStartFailed => 402,
            DnsProxyStatus::ServiceStopFailed => 403,
            DnsProxyStatus::CommandSyntaxError => 500,
            DnsProxyStatus::CommandParameterError => 501,
            DnsProxyStatus::InterfaceChange => 600,
            DnsProxyStatus::BandwidthControl => 601,
            DnsProxyStatus::ServiceDiscoveryFailed => 602,
            DnsProxyStatus::ServiceDiscoveryServiceAdded => 603,
            DnsProxyStatus::ServiceDiscoveryServiceRemoved => 604,
            DnsProxyStatus::ServiceRegistrationFailed => 605,
            DnsProxyStatus::ServiceRegistrationSucceeded => 606,
            DnsProxyStatus::ServiceResolveFailed => 607,
            DnsProxyStatus::ServiceResolveSuccess => 608,
            DnsProxyStatus::ServiceSetHostnameFailed => 609,
            DnsProxyStatus::ServiceSetHostnameSuccess => 610,
            DnsProxyStatus::ServiceGetAddrInfoFailed => 611,
            DnsProxyStatus::ServiceGetAddrInfoSuccess => 612,
            DnsProxyStatus::InterfaceClassActivity => 613,
            DnsProxyStatus::InterfaceAddressChange => 614,
            DnsProxyStatus::InterfaceDnsInfo => 615,
            DnsProxyStatus::RouteChange => 616,
            DnsProxyStatus::StrictCleartext => 617,
        }
    }

    /// Appends the status line (three ASCII digits and a NUL) to `w`.
    pub fn write(self, w: &mut Vec<u8>)
        ensures
            final(w)@ == old(w)@ + status_line(status_code(self)),
    {
        let code = self.code();
        let buf = [
            48u8 + ((code / 100) % 10) as u8,
            48u8 + ((code / 10) % 10) as u8,
            48u8 + (code % 10) as u8,
            0u8,
        ];
        assert(buf@ =~= status_line(code));
        append_bytes(w, &buf);
    }
}

} // verus!
