use rushdrop::error::{AppError, LogLevel, MulterError};

fn answer(error: AppError) -> (u16, String, LogLevel) {
    let response = error.into_response();
    (response.status, response.body, response.level)
}

#[test]
fn every_error_has_its_answer() {
    let text = || "why".to_string();
    let cases = vec![
        (AppError::MissingContentType, 400, "缺少 Content-Type 头"),
        (AppError::InvalidContentType(text()), 400, "Content-Type 头包含非 UTF-8 字符: why"),
        (AppError::MulterError(MulterError::Other(text())), 400, "multipart 处理错误: why"),
        (AppError::MulterError(MulterError::FieldSizeExceeded(text())), 413, "multipart 处理错误: why"),
        (AppError::MulterError(MulterError::StreamSizeExceeded(text())), 413, "multipart 处理错误: why"),
        (AppError::Io(text()), 500, "文件 I/O 错误: why"),
        (AppError::PathTraversal, 403, "路径遍历攻击"),
        (AppError::NotFound(text()), 404, "文件不存在: why"),
        (AppError::Internal(text()), 500, "内部错误: why"),
        (AppError::LockError, 500, "获取锁失败"),
    ];
    for (error, status, body) in cases {
        assert_eq!(error.status(), status);
        assert_eq!(error.message(), body);
        assert_eq!(answer(error), (status, body.to_string(), LogLevel::Error));
    }
}

#[test]
fn a_thumbnail_that_is_not_ready_is_a_warning() {
    assert_eq!(
        answer(AppError::ThumbnailNotReady),
        (404, "缩略图尚未生成，请稍后重试".to_string(), LogLevel::Warning)
    );
}
