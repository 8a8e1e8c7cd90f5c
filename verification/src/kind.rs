//! Message kinds: each TURN method in each STUN class, plus a stand-in
//! for types this relay does not know.

use vstd::prelude::*;

verus! {

/// Message kind: method crossed with class (request, indication,
/// success response, error response).
#[derive(Clone, Copy, PartialEq, Eq, Structural, Debug)]
pub enum Kind {
    BindingRequest,
    BindingIndication,
    BindingResponse,
    BindingError,
    AllocateRequest,
    AllocateIndication,
    AllocateResponse,
    AllocateError,
    RefreshRequest,
    RefreshIndication,
    RefreshResponse,
    RefreshError,
    SendRequest,
    SendIndication,
    SendResponse,
    SendError,
    DataRequest,
    DataIndication,
    DataResponse,
    DataError,
    CreatePermissionRequest,
    CreatePermissionIndication,
    CreatePermissionResponse,
    CreatePermissionError,
    ChannelBindRequest,
    ChannelBindIndication,
    ChannelBindResponse,
    ChannelBindError,
    Unknown,
}

/// The 16-bit message type code of a kind. `Unknown` has no code of
/// its own and is never encoded.
pub open spec fn spec_kind_code(k: Kind) -> u16 {
    match k {
        Kind::BindingRequest => 0x001,
        Kind::BindingIndication => 0x011,
        Kind::BindingResponse => 0x101,
        Kind::BindingError => 0x111,
        Kind::AllocateRequest => 0x003,
        Kind::AllocateIndication => 0x013,
        Kind::AllocateResponse => 0x103,
        Kind::AllocateError => 0x113,
        Kind::RefreshRequest => 0x004,
        Kind::RefreshIndication => 0x014,
        Kind::RefreshResponse => 0x104,
        Kind::RefreshError => 0x114,
        Kind::SendRequest => 0x006,
        Kind::SendIndication => 0x016,
        Kind::SendResponse => 0x106,
        Kind::SendError => 0x116,
        Kind::DataRequest => 0x007,
        Kind::DataIndication => 0x017,
        Kind::DataResponse => 0x107,
        Kind::DataError => 0x117,
        Kind::CreatePermissionRequest => 0x008,
        Kind::CreatePermissionIndication => 0x018,
        Kind::CreatePermissionResponse => 0x108,
        Kind::CreatePermissionError => 0x118,
        Kind::ChannelBindRequest => 0x009,
        Kind::ChannelBindIndication => 0x019,
        Kind::ChannelBindResponse => 0x109,
        Kind::ChannelBindError => 0x119,
        Kind::Unknown => 0xFFFF,
    }
}

/// The kind a 16-bit message type code names; `Unknown` for any code
/// this relay does not know.
pub open spec fn spec_kind_of(code: u16) -> Kind {
    if false {
        Kind::Unknown
    } else if code == 0x001 {
        Kind::BindingRequest
    } else if code == 0x011 {
        Kind::BindingIndication
    } else if code == 0x101 {
        Kind::BindingResponse
    } else if code == 0x111 {
        Kind::BindingError
    } else if code == 0x003 {
        Kind::AllocateRequest
    } else if code == 0x013 {
        Kind::AllocateIndication
    } else if code == 0x103 {
        Kind::AllocateResponse
    } else if code == 0x113 {
        Kind::AllocateError
    } else if code == 0x004 {
        Kind::RefreshRequest
    } else if code == 0x014 {
        Kind::RefreshIndication
    } else if code == 0x104 {
        Kind::RefreshResponse
    } else if code == 0x114 {
        Kind::RefreshError
    } else if code == 0x006 {
        Kind::SendRequest
    } else if code == 0x016 {
        Kind::SendIndication
    } else if code == 0x106 {
        Kind::SendResponse
    } else if code == 0x116 {
        Kind::SendError
    } else if code == 0x007 {
        Kind::DataRequest
    } else if code == 0x017 {
        Kind::DataIndication
    } else if code == 0x107 {
        Kind::DataResponse
    } else if code == 0x117 {
        Kind::DataError
    } else if code == 0x008 {
        Kind::CreatePermissionRequest
    } else if code == 0x018 {
        Kind::CreatePermissionIndication
    } else if code == 0x108 {
        Kind::CreatePermissionResponse
    } else if code == 0x118 {
        Kind::CreatePermissionError
    } else if code == 0x009 {
        Kind::ChannelBindRequest
    } else if code == 0x019 {
        Kind::ChannelBindIndication
    } else if code == 0x109 {
        Kind::ChannelBindResponse
    } else if code == 0x119 {
        Kind::ChannelBindError
    } else {
        Kind::Unknown
    }
}

/// Looking a known kind's code back up gives the kind.
pub proof fn lemma_kind_code_of(k: Kind)
    requires
        k != Kind::Unknown,
    ensures
        spec_kind_of(spec_kind_code(k)) == k,
{
}

impl Kind {
    /// The 16-bit message type code of this kind.
    pub fn code(&self) -> (r: u16)
        ensures
            r == spec_kind_code(*self),
    {
        match self {
            Kind::BindingRequest => 0x001,
            Kind::BindingIndication => 0x011,
            Kind::BindingResponse => 0x101,
            Kind::BindingError => 0x111,
            Kind::AllocateRequest => 0x003,
            Kind::AllocateIndication => 0x013,
            Kind::AllocateResponse => 0x103,
            Kind::AllocateError => 0x113,
            Kind::RefreshRequest => 0x004,
            Kind::RefreshIndication => 0x014,
            Kind::RefreshResponse => 0x104,
            Kind::RefreshError => 0x114,
            Kind::SendRequest => 0x006,
            Kind::SendIndication => 0x016,
            Kind::SendResponse => 0x106,
            Kind::SendError => 0x116,
            Kind::DataRequest => 0x007,
            Kind::DataIndication => 0x017,
            Kind::DataResponse => 0x107,
            Kind::DataError => 0x117,
            Kind::CreatePermissionRequest => 0x008,
            Kind::CreatePermissionIndication => 0x018,
            Kind::CreatePermissionResponse => 0x108,
            Kind::CreatePermissionError => 0x118,
            Kind::ChannelBindRequest => 0x009,
            Kind::ChannelBindIndication => 0x019,
            Kind::ChannelBindResponse => 0x109,
            Kind::ChannelBindError => 0x119,
            Kind::Unknown => 0xFFFF,
        }
    }

    /// The kind a message type code names.
    pub fn from_code(code: u16) -> (r: Kind)
        ensures
            r == spec_kind_of(code),
    {
        if false {
            Kind::Unknown
        } else if code == 0x001 {
            Kind::BindingRequest
        } else if code == 0x011 {
            Kind::BindingIndication
        } else if code == 0x101 {
            Kind::BindingResponse
        } else if code == 0x111 {
            Kind::BindingError
        } else if code == 0x003 {
            Kind::AllocateRequest
        } else if code == 0x013 {
            Kind::AllocateIndication
        } else if code == 0x103 {
            Kind::AllocateResponse
        } else if code == 0x113 {
            Kind::AllocateError
        } else if code == 0x004 {
            Kind::RefreshRequest
        } else if code == 0x014 {
            Kind::RefreshIndication
        } else if code == 0x104 {
            Kind::RefreshResponse
        } else if code == 0x114 {
            Kind::RefreshError
        } else if code == 0x006 {
            Kind::SendRequest
        } else if code == 0x016 {
            Kind::SendIndication
        } else if code == 0x106 {
            Kind::SendResponse
        } else if code == 0x116 {
            Kind::SendError
        } else if code == 0x007 {
            Kind::DataRequest
        } else if code == 0x017 {
            Kind::DataIndication
        } else if code == 0x107 {
            Kind::DataResponse
        } else if code == 0x117 {
            Kind::DataError
        } else if code == 0x008 {
            Kind::CreatePermissionRequest
        } else if code == 0x018 {
            Kind::CreatePermissionIndication
        } else if code == 0x108 {
            Kind::CreatePermissionResponse
        } else if code == 0x118 {
            Kind::CreatePermissionError
        } else if code == 0x009 {
            Kind::ChannelBindRequest
        } else if code == 0x019 {
            Kind::ChannelBindIndication
        } else if code == 0x109 {
            Kind::ChannelBindResponse
        } else if code == 0x119 {
            Kind::ChannelBindError
        } else {
            Kind::Unknown
        }
    }
}

} // verus!
