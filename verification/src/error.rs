//! The error type of the service and the responses it turns into.

use vstd::prelude::*;
use crate::models::ErrorResponse;

verus! {

/// The errors of the service.
#[derive(Debug)]
pub enum AppError {
    /// 资源不存在
    NotFound,
    /// 请求参数错误：{0}
    BadRequest(String),
    /// 未授权：缺少或错误的 API Key
    Unauthorized,
    /// 请求过于频繁，请稍后再试
    RateLimited,
    /// 服务器内部错误：{0}
    Internal(String),
}

/// The business code of an error.
pub open spec fn code_spec(e: AppError) -> i32 {
    match e {
        AppError::NotFound => 404,
        AppError::BadRequest(_) => 400,
        AppError::Unauthorized => 401,
        AppError::RateLimited => 429,
        AppError::Internal(_) => 500,
    }
}

/// The HTTP status of an error.
pub open spec fn status_spec(e: AppError) -> u16 {
    match e {
        AppError::NotFound => 404,
        AppError::BadRequest(_) => 400,
        AppError::Unauthorized => 401,
        AppError::RateLimited => 429,
        AppError::Internal(_) => 500,
    }
}

/// The message of an error, shown to the client.
pub open spec fn message_spec(e: AppError) -> Seq<char> {
    match e {
        AppError::NotFound => "资源不存在"@,
        AppError::BadRequest(s) => "请求参数错误："@ + s@,
        AppError::Unauthorized => "未授权：缺少或错误的 API Key"@,
        AppError::RateLimited => "请求过于频繁，请稍后再试"@,
        AppError::Internal(s) => "服务器内部错误："@ + s@,
    }
}

impl AppError {
    /// The business code, equal to the HTTP status so that clients can go by
    /// the `code` field alone.
    pub fn code(&self) -> (c: i32)
        ensures
            c == code_spec(*self),
    {
        match self {
            AppError::NotFound => 404,
            AppError::BadRequest(_) => 400,
            AppError::Unauthorized => 401,
            AppError::RateLimited => 429,
            AppError::Internal(_) => 500,
        }
    }

    /// The HTTP status of the response.
    pub fn status_code(&self) -> (s: u16)
        ensures
            s == status_spec(*self),
    {
        match self {
            AppError::NotFound => 404,
            AppError::BadRequest(_) => 400,
            AppError::Unauthorized => 401,
            AppError::RateLimited => 429,
            AppError::Internal(_) => 500,
        }
    }

    /// The message of the error.
    pub fn message(&self) -> (m: String)
        ensures
            m@ == message_spec(*self),
    {
        match self {
            AppError::NotFound => "资源不存在".to_string(),
            AppError::BadRequest(s) => {
                let mut m = "请求参数错误：".to_string();
                m.append(s.as_str());
                m
            },
            AppError::Unauthorized => "未授权：缺少或错误的 API Key".to_string(),
            AppError::RateLimited => "请求过于频繁，请稍后再试".to_string(),
            AppError::Internal(s) => {
                let mut m = "服务器内部错误：".to_string();
                m.append(s.as_str());
                m
            },
        }
    }

    /// The body of the error response: the code, the message and no data.
    pub fn to_error_response(&self) -> (r: ErrorResponse)
        ensures
            r.code == code_spec(*self),
            r.message@ == message_spec(*self),
            r.data is None,
    {
        ErrorResponse { code: self.code(), message: self.message(), data: None }
    }
}

/// The code in an error body is always its HTTP status.
pub proof fn lemma_code_is_status(e: AppError)
    ensures
        code_spec(e) as int == status_spec(e) as int,
{
}

} // verus!
