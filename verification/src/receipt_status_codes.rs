//! ReceiptStatusCode: a byte included in every transaction receipt that
//! describes, in one reserved value per variant, what happened during the
//! execution of the transaction. Values are non-contiguous by design class,
//! leaving room for growth within a class.

use vstd::prelude::*;
use crate::error::{Error, ErrorKind};

verus! {

/// The outcome class of executing a transaction.
#[derive(Clone, Copy, Debug, PartialEq, Eq, Structural)]
pub enum ReceiptStatusCode {
    /* Success class. */
    /// Successful transaction.
    Success,
    /* Pre-Inclusion Decision class. */
    /// Nonce is not current nonce + 1.
    WrongNonce,
    /// Not enough balance to pay for gas limit.
    NotEnoughBalanceForGasLimit,
    /// Not enough balance to pay for transfer.
    NotEnoughBalanceForTransfer,
    /// Gas limit was insufficient to cover pre-execution costs.
    PreExecutionGasExhausted,
    /* Deploy class. */
    /// The contract bytecode contains disallowed opcodes.
    DisallowedOpcode,
    /// Contract cannot be compiled into machine code.
    CannotCompile,
    /// Contract does not export the expected contract method.
    NoExportedContractMethod,
    /// Deployment failed for some other reason.
    OtherDeployError,
    /* EtoC class. */
    /// Gas limit was insufficient to cover execution proper costs.
    ExecutionProperGasExhausted,
    /// Runtime error during execution proper of the entree smart contract.
    RuntimeError,
    /* Internal Transaction class. */
    /// Gas limit was insufficient to cover execution proper costs of an
    /// internal transaction.
    InternalExecutionProperGasExhaustion,
    /// Runtime error during execution proper of an internal transaction.
    InternalRuntimeError,
    /// Not enough balance to pay for transfer in an internal transaction.
    InternalNotEnoughBalanceForTransfer,
    /* Miscellaneous class. */
    /// Other error.
    Else,
}

impl DeepView for ReceiptStatusCode {
    type V = ReceiptStatusCode;

    open spec fn deep_view(&self) -> ReceiptStatusCode {
        *self
    }
}

/// The reserved byte value of each status code.
pub open spec fn spec_code_byte(c: ReceiptStatusCode) -> u8 {
    match c {
        ReceiptStatusCode::Success => 0,
        ReceiptStatusCode::WrongNonce => 10,
        ReceiptStatusCode::NotEnoughBalanceForGasLimit => 11,
        ReceiptStatusCode::NotEnoughBalanceForTransfer => 12,
        ReceiptStatusCode::PreExecutionGasExhausted => 13,
        ReceiptStatusCode::DisallowedOpcode => 20,
        ReceiptStatusCode::CannotCompile => 21,
        ReceiptStatusCode::NoExportedContractMethod => 22,
        ReceiptStatusCode::OtherDeployError => 23,
        ReceiptStatusCode::ExecutionProperGasExhausted => 30,
        ReceiptStatusCode::RuntimeError => 31,
        ReceiptStatusCode::InternalExecutionProperGasExhaustion => 40,
        ReceiptStatusCode::InternalRuntimeError => 41,
        ReceiptStatusCode::InternalNotEnoughBalanceForTransfer => 42,
        ReceiptStatusCode::Else => 50,
    }
}

/// The status code a byte stands for, or `None` for a byte outside the
/// defined mapping. Decoding never substitutes a default variant.
pub open spec fn spec_byte_code(b: u8) -> Option<ReceiptStatusCode> {
    if b == 0 {
        Some(ReceiptStatusCode::Success)
    } else if b == 10 {
        Some(ReceiptStatusCode::WrongNonce)
    } else if b == 11 {
        Some(ReceiptStatusCode::NotEnoughBalanceForGasLimit)
    } else if b == 12 {
        Some(ReceiptStatusCode::NotEnoughBalanceForTransfer)
    } else if b == 13 {
        Some(ReceiptStatusCode::PreExecutionGasExhausted)
    } else if b == 20 {
        Some(ReceiptStatusCode::DisallowedOpcode)
    } else if b == 21 {
        Some(ReceiptStatusCode::CannotCompile)
    } else if b == 22 {
        Some(ReceiptStatusCode::NoExportedContractMethod)
    } else if b == 23 {
        Some(ReceiptStatusCode::OtherDeployError)
    } else if b == 30 {
        Some(ReceiptStatusCode::ExecutionProperGasExhausted)
    } else if b == 31 {
        Some(ReceiptStatusCode::RuntimeError)
    } else if b == 40 {
        Some(ReceiptStatusCode::InternalExecutionProperGasExhaustion)
    } else if b == 41 {
        Some(ReceiptStatusCode::InternalRuntimeError)
    } else if b == 42 {
        Some(ReceiptStatusCode::InternalNotEnoughBalanceForTransfer)
    } else if b == 50 {
        Some(ReceiptStatusCode::Else)
    } else {
        None
    }
}

/// True of the status codes on which a transaction is includable in a block.
pub open spec fn spec_is_includable(c: ReceiptStatusCode) -> bool {
    ||| c == ReceiptStatusCode::Success
    ||| c == ReceiptStatusCode::DisallowedOpcode
    ||| c == ReceiptStatusCode::CannotCompile
    ||| c == ReceiptStatusCode::NoExportedContractMethod
    ||| c == ReceiptStatusCode::OtherDeployError
    ||| c == ReceiptStatusCode::ExecutionProperGasExhausted
    ||| c == ReceiptStatusCode::RuntimeError
    ||| c == ReceiptStatusCode::InternalExecutionProperGasExhaustion
    ||| c == ReceiptStatusCode::InternalRuntimeError
    ||| c == ReceiptStatusCode::InternalNotEnoughBalanceForTransfer
}

/// True of the status codes on which the same transaction may be retried.
pub open spec fn spec_is_retryable(c: ReceiptStatusCode) -> bool {
    ||| c == ReceiptStatusCode::WrongNonce
    ||| c == ReceiptStatusCode::NotEnoughBalanceForGasLimit
    ||| c == ReceiptStatusCode::NotEnoughBalanceForTransfer
}

impl ReceiptStatusCode {
    /// The reserved byte of this status code.
    pub fn into(self) -> (r: u8)
        ensures
            r == spec_code_byte(self),
    {
        match self {
            ReceiptStatusCode::Success => 0,
            ReceiptStatusCode::WrongNonce => 10,
            ReceiptStatusCode::NotEnoughBalanceForGasLimit => 11,
            ReceiptStatusCode::NotEnoughBalanceForTransfer => 12,
            ReceiptStatusCode::PreExecutionGasExhausted => 13,
            ReceiptStatusCode::DisallowedOpcode => 20,
            ReceiptStatusCode::CannotCompile => 21,
            ReceiptStatusCode::NoExportedContractMethod => 22,
            ReceiptStatusCode::OtherDeployError => 23,
            ReceiptStatusCode::ExecutionProperGasExhausted => 30,
            ReceiptStatusCode::RuntimeError => 31,
            ReceiptStatusCode::InternalExecutionProperGasExhaustion => 40,
            ReceiptStatusCode::InternalRuntimeError => 41,
            ReceiptStatusCode::InternalNotEnoughBalanceForTransfer => 42,
            ReceiptStatusCode::Else => 50,
        }
    }

    /// The status code of a byte; `ReceiptStatusCodeOutOfRange` exactly when
    /// the byte is outside the defined mapping.
    pub fn try_from(value: u8) -> (r: Result<ReceiptStatusCode, Error>)
        ensures
            match r {
                Ok(c) => spec_byte_code(value) == Some(c),
                Err(e) => spec_byte_code(value) is None && e@
                    == ErrorKind::ReceiptStatusCodeOutOfRange,
            },
    {
        match value {
            0 => Ok(ReceiptStatusCode::Success),
            10 => Ok(ReceiptStatusCode::WrongNonce),
            11 => Ok(ReceiptStatusCode::NotEnoughBalanceForGasLimit),
            12 => Ok(ReceiptStatusCode::NotEnoughBalanceForTransfer),
            13 => Ok(ReceiptStatusCode::PreExecutionGasExhausted),
            20 => Ok(ReceiptStatusCode::DisallowedOpcode),
            21 => Ok(ReceiptStatusCode::CannotCompile),
            22 => Ok(ReceiptStatusCode::NoExportedContractMethod),
            23 => Ok(ReceiptStatusCode::OtherDeployError),
            30 => Ok(ReceiptStatusCode::ExecutionProperGasExhausted),
            31 => Ok(ReceiptStatusCode::RuntimeError),
            40 => Ok(ReceiptStatusCode::InternalExecutionProperGasExhaustion),
            41 => Ok(ReceiptStatusCode::InternalRuntimeError),
            42 => Ok(ReceiptStatusCode::InternalNotEnoughBalanceForTransfer),
            50 => Ok(ReceiptStatusCode::Else),
            _ => Err(Error::new(ErrorKind::ReceiptStatusCodeOutOfRange)),
        }
    }

    /// True exactly of the success status code.
    pub fn is_success(&self) -> (r: bool)
        ensures
            r == (*self == ReceiptStatusCode::Success),
    {
        ReceiptStatusCode::Success == *self
    }

    /// True exactly of the status codes on which a transaction is includable
    /// in a block.
    pub fn is_includable(&self) -> (r: bool)
        ensures
            r == spec_is_includable(*self),
    {
        ReceiptStatusCode::Success == *self || ReceiptStatusCode::DisallowedOpcode == *self
            || ReceiptStatusCode::CannotCompile == *self
            || ReceiptStatusCode::NoExportedContractMethod == *self
            || ReceiptStatusCode::OtherDeployError == *self
            || ReceiptStatusCode::ExecutionProperGasExhausted == *self
            || ReceiptStatusCode::RuntimeError == *self
            || ReceiptStatusCode::InternalExecutionProperGasExhaustion == *self
            || ReceiptStatusCode::InternalRuntimeError == *self
            || ReceiptStatusCode::InternalNotEnoughBalanceForTransfer == *self
    }

    /// True exactly of the status codes on which the same transaction may be
    /// retried.
    pub fn is_retryable(&self) -> (r: bool)
        ensures
            r == spec_is_retryable(*self),
    {
        ReceiptStatusCode::WrongNonce == *self
            || ReceiptStatusCode::NotEnoughBalanceForGasLimit == *self
            || ReceiptStatusCode::NotEnoughBalanceForTransfer == *self
    }
}

/// Status-code totality: every defined status code round-trips through its
/// reserved byte value.
pub proof fn lemma_status_code_roundtrip(c: ReceiptStatusCode)
    ensures
        spec_byte_code(spec_code_byte(c)) == Some(c),
{
}

} // verus!
